use vstd::prelude::*;

use crate::date::{valid_date, Date, DateV};
use crate::digits::{
    dec_num, digits_of, is_digit, lemma_digits_of_val, lemma_run_end_determined,
    lemma_val_of_zero_prefix, push_u64, scan_number, val_of,
};
use crate::store::{store_wf, DayEntry, EntryV, Task, TaskStore, TaskType, TaskV};

verus! {

// The snapshot's text form, one entry per date key:
//
//     @YYYY-MM-DD
//     #T 0 _ 8:buy milk
//     #E 1 -120 3:abc
//
// A date line starts with `@` and holds the key as an ISO calendar date
// (a `-` before the year for years before year zero). Each task line
// starts with `#`, then the kind tag (`T`odo, `E`vent, `N`ote), the
// completion flag, the optional due timestamp (`_` for none), and the
// content, length-prefixed so it may hold any character at all.

pub open spec fn pad4(n: nat) -> Seq<char> {
    if n < 10 {
        seq!['0', '0', '0']
    } else if n < 100 {
        seq!['0', '0']
    } else if n < 1000 {
        seq!['0']
    } else {
        Seq::empty()
    }
}

pub open spec fn pad2(n: nat) -> Seq<char> {
    if n < 10 {
        seq!['0']
    } else {
        Seq::empty()
    }
}

pub open spec fn nat_abs(v: int) -> nat {
    if v >= 0 {
        v as nat
    } else {
        (-v) as nat
    }
}

/// Year written with at least four digits, sign first when negative.
pub open spec fn enc_year(y: int) -> Seq<char> {
    if y < 0 {
        seq!['-'] + pad4(nat_abs(y)) + digits_of(nat_abs(y))
    } else {
        pad4(nat_abs(y)) + digits_of(nat_abs(y))
    }
}

/// ISO calendar date, `year-month-day`.
pub open spec fn enc_date(d: DateV) -> Seq<char> {
    enc_year(d.y) + seq!['-'] + pad2(nat_abs(d.m)) + digits_of(nat_abs(d.m)) + seq!['-'] + pad2(
        nat_abs(d.d),
    ) + digits_of(nat_abs(d.d))
}

/// Signed decimal of a timestamp.
pub open spec fn enc_i64(v: i64) -> Seq<char> {
    if v < 0 {
        seq!['-'] + digits_of(nat_abs(v as int))
    } else {
        digits_of(nat_abs(v as int))
    }
}

pub open spec fn enc_due(o: Option<i64>) -> Seq<char> {
    match o {
        Option::None => seq!['_'],
        Option::Some(v) => enc_i64(v),
    }
}

pub open spec fn tag_char(t: TaskType) -> char {
    match t {
        TaskType::Todo => 'T',
        TaskType::Event => 'E',
        TaskType::Note => 'N',
    }
}

pub open spec fn flag_char(b: bool) -> char {
    if b {
        '1'
    } else {
        '0'
    }
}

/// One task line.
pub open spec fn enc_task(t: TaskV) -> Seq<char> {
    seq!['#', tag_char(t.task_type), ' ', flag_char(t.completed), ' '] + enc_due(t.due_date) + seq![
        ' ',
    ] + digits_of(t.content.len()) + seq![':'] + t.content + seq!['\n']
}

pub open spec fn enc_tasks(ts: Seq<TaskV>) -> Seq<char>
    decreases ts.len(),
{
    if ts.len() == 0 {
        Seq::empty()
    } else {
        enc_task(ts.first()) + enc_tasks(ts.drop_first())
    }
}

/// One date's block: the key line, then its task lines in order.
pub open spec fn enc_entry(e: EntryV) -> Seq<char> {
    seq!['@'] + enc_date(e.date) + seq!['\n'] + enc_tasks(e.tasks)
}

/// The whole snapshot, entries in store order.
pub open spec fn enc_store(s: Seq<EntryV>) -> Seq<char>
    decreases s.len(),
{
    if s.len() == 0 {
        Seq::empty()
    } else {
        enc_entry(s.first()) + enc_store(s.drop_first())
    }
}

// What the loader means, position by position. Each piece either fails or
// returns the parsed value with the position just past it.

pub open spec fn dec_year(s: Seq<char>, i: int) -> Option<(int, int)> {
    if 0 <= i < s.len() && s[i] == '-' {
        match dec_num(s, i + 1) {
            Option::Some((v, e)) => if v <= 9223372036854775808u64 {
                Option::Some((-(v as int), e))
            } else {
                Option::None
            },
            Option::None => Option::None,
        }
    } else {
        match dec_num(s, i) {
            Option::Some((v, e)) => if v <= i64::MAX as u64 {
                Option::Some((v as int, e))
            } else {
                Option::None
            },
            Option::None => Option::None,
        }
    }
}

pub open spec fn dec_date(s: Seq<char>, i: int) -> Option<(DateV, int)> {
    match dec_year(s, i) {
        Option::Some((y, e1)) => if e1 < s.len() && s[e1] == '-' {
            match dec_num(s, e1 + 1) {
                Option::Some((m, e2)) => if e2 < s.len() && s[e2] == '-' {
                    match dec_num(s, e2 + 1) {
                        Option::Some((dd, e3)) => {
                            let dv = DateV { y: y, m: m as int, d: dd as int };
                            if valid_date(dv) {
                                Option::Some((dv, e3))
                            } else {
                                Option::None
                            }
                        },
                        Option::None => Option::None,
                    }
                } else {
                    Option::None
                },
                Option::None => Option::None,
            }
        } else {
            Option::None
        },
        Option::None => Option::None,
    }
}

pub open spec fn dec_i64(s: Seq<char>, i: int) -> Option<(i64, int)> {
    if 0 <= i < s.len() && s[i] == '-' {
        match dec_num(s, i + 1) {
            Option::Some((v, e)) => if v <= 9223372036854775808u64 {
                Option::Some(((-(v as int)) as i64, e))
            } else {
                Option::None
            },
            Option::None => Option::None,
        }
    } else {
        match dec_num(s, i) {
            Option::Some((v, e)) => if v <= i64::MAX as u64 {
                Option::Some((v as i64, e))
            } else {
                Option::None
            },
            Option::None => Option::None,
        }
    }
}

pub open spec fn dec_due(s: Seq<char>, i: int) -> Option<(Option<i64>, int)> {
    if 0 <= i < s.len() && s[i] == '_' {
        Option::Some((Option::None, i + 1))
    } else {
        match dec_i64(s, i) {
            Option::Some((v, e)) => Option::Some((Option::Some(v), e)),
            Option::None => Option::None,
        }
    }
}

pub open spec fn dec_tag(c: char) -> Option<TaskType> {
    if c == 'T' {
        Option::Some(TaskType::Todo)
    } else if c == 'E' {
        Option::Some(TaskType::Event)
    } else if c == 'N' {
        Option::Some(TaskType::Note)
    } else {
        Option::None
    }
}

pub open spec fn dec_flag(c: char) -> Option<bool> {
    if c == '0' {
        Option::Some(false)
    } else if c == '1' {
        Option::Some(true)
    } else {
        Option::None
    }
}

pub open spec fn dec_task(s: Seq<char>, i: int) -> Option<(TaskV, int)> {
    if 0 <= i && i + 5 <= s.len() && s[i] == '#' && s[i + 2] == ' ' && s[i + 4] == ' ' {
        match (dec_tag(s[i + 1]), dec_flag(s[i + 3])) {
            (Option::Some(tt), Option::Some(fl)) => match dec_due(s, i + 5) {
                Option::Some((due, e1)) => if e1 < s.len() && s[e1] == ' ' {
                    match dec_num(s, e1 + 1) {
                        Option::Some((ln, e2)) => if e2 < s.len() && s[e2] == ':' && e2 + 2 + ln
                            <= s.len() && s[e2 + 1 + ln] == '\n' {
                            Option::Some(
                                (
                                    TaskV {
                                        content: s.subrange(e2 + 1, e2 + 1 + ln),
                                        task_type: tt,
                                        completed: fl,
                                        due_date: due,
                                    },
                                    e2 + 2 + ln,
                                ),
                            )
                        } else {
                            Option::None
                        },
                        Option::None => Option::None,
                    }
                } else {
                    Option::None
                },
                Option::None => Option::None,
            },
            _ => Option::None,
        }
    } else {
        Option::None
    }
}

pub open spec fn dec_tasks(s: Seq<char>, i: int) -> Option<(Seq<TaskV>, int)>
    decreases s.len() - i when 0 <= i <= s.len()
{
    if i < s.len() && s[i] == '#' {
        match dec_task(s, i) {
            Option::Some((t, e)) => if i < e <= s.len() {
                match dec_tasks(s, e) {
                    Option::Some((ts, e2)) => Option::Some((seq![t] + ts, e2)),
                    Option::None => Option::None,
                }
            } else {
                Option::None
            },
            Option::None => Option::None,
        }
    } else {
        Option::Some((Seq::empty(), i))
    }
}

pub open spec fn dec_entry(s: Seq<char>, i: int) -> Option<(EntryV, int)> {
    if 0 <= i < s.len() && s[i] == '@' {
        match dec_date(s, i + 1) {
            Option::Some((dv, e1)) => if e1 < s.len() && s[e1] == '\n' {
                match dec_tasks(s, e1 + 1) {
                    Option::Some((ts, e2)) => Option::Some((EntryV { date: dv, tasks: ts }, e2)),
                    Option::None => Option::None,
                }
            } else {
                Option::None
            },
            Option::None => Option::None,
        }
    } else {
        Option::None
    }
}

pub open spec fn dec_store(s: Seq<char>, i: int) -> Option<Seq<EntryV>>
    decreases s.len() - i when 0 <= i <= s.len()
{
    if i == s.len() {
        Option::Some(Seq::empty())
    } else {
        match dec_entry(s, i) {
            Option::Some((ent, e)) => if i < e <= s.len() {
                match dec_store(s, e) {
                    Option::Some(rest) => Option::Some(seq![ent] + rest),
                    Option::None => Option::None,
                }
            } else {
                Option::None
            },
            Option::None => Option::None,
        }
    }
}

/// Meaning of the loader on a whole text.
pub open spec fn dec_snapshot(s: Seq<char>) -> Option<Seq<EntryV>> {
    dec_store(s, 0)
}

/// Appends the year, at least four digits wide, sign first.
fn push_year(out: &mut Vec<char>, y: i64)
    ensures
        final(out)@ == old(out)@ + enc_year(y as int),
{
    let mag: u64 = if y >= 0 {
        y as u64
    } else if y == i64::MIN {
        9223372036854775808
    } else {
        (-y) as u64
    };
    proof {
        assert(mag as nat == nat_abs(y as int));
    }
    if y < 0 {
        out.push('-');
    }
    if mag < 1000 {
        out.push('0');
    }
    if mag < 100 {
        out.push('0');
    }
    if mag < 10 {
        out.push('0');
    }
    push_u64(out, mag);
    proof {
        assert(out@ =~= old(out)@ + enc_year(y as int));
    }
}

/// Appends a small number, two digits wide.
fn push_2(out: &mut Vec<char>, n: u64)
    requires
        n < 100,
    ensures
        final(out)@ == old(out)@ + pad2(n as nat) + digits_of(n as nat),
{
    if n < 10 {
        out.push('0');
    }
    push_u64(out, n);
    proof {
        assert(out@ =~= old(out)@ + pad2(n as nat) + digits_of(n as nat));
    }
}

/// Appends an ISO calendar date.
fn push_date(out: &mut Vec<char>, d: Date)
    requires
        d.wf(),
    ensures
        final(out)@ == old(out)@ + enc_date(d@),
{
    push_year(out, d.year);
    out.push('-');
    push_2(out, d.month as u64);
    out.push('-');
    push_2(out, d.day as u64);
    proof {
        assert(out@ =~= old(out)@ + enc_date(d@));
    }
}

/// Appends a signed timestamp.
fn push_i64(out: &mut Vec<char>, v: i64)
    ensures
        final(out)@ == old(out)@ + enc_i64(v),
{
    let mag: u64 = if v >= 0 {
        v as u64
    } else if v == i64::MIN {
        9223372036854775808
    } else {
        (-v) as u64
    };
    proof {
        assert(mag as nat == nat_abs(v as int));
    }
    if v < 0 {
        out.push('-');
    }
    push_u64(out, mag);
    proof {
        assert(out@ =~= old(out)@ + enc_i64(v));
    }
}

/// Appends the due field: `_` for none, else the timestamp.
fn push_due(out: &mut Vec<char>, o: Option<i64>)
    ensures
        final(out)@ == old(out)@ + enc_due(o),
{
    match o {
        Option::None => {
            out.push('_');
            proof {
                assert(out@ =~= old(out)@ + enc_due(o));
            }
        },
        Option::Some(v) => {
            push_i64(out, v);
        },
    }
}

/// Appends one task line.
fn push_task(out: &mut Vec<char>, t: &Task)
    ensures
        final(out)@ == old(out)@ + enc_task(t@),
{
    out.push('#');
    match t.task_type {
        TaskType::Todo => out.push('T'),
        TaskType::Event => out.push('E'),
        TaskType::Note => out.push('N'),
    }
    out.push(' ');
    if t.completed {
        out.push('1');
    } else {
        out.push('0');
    }
    out.push(' ');
    push_due(out, t.due_date);
    out.push(' ');
    push_u64(out, t.content.len() as u64);
    out.push(':');
    let ghost mid = out@;
    let n = t.content.len();
    let mut j: usize = 0;
    while j < n
        invariant
            j <= n,
            n == t.content@.len(),
            out@ =~= mid + t.content@.take(j as int),
        decreases n - j,
    {
        out.push(t.content[j]);
        proof {
            assert(out@ =~= mid + t.content@.take(j as int + 1));
        }
        j += 1;
    }
    out.push('\n');
    proof {
        assert(t.content@.take(n as int) =~= t.content@);
        assert((t.content.len() as u64) as nat == t@.content.len());
        assert(out@ =~= old(out)@ + enc_task(t@));
    }
}

/// The task lines of a prefix grow one line at a time.
proof fn lemma_enc_tasks_take(ts: Seq<TaskV>, i: int)
    requires
        0 <= i < ts.len(),
    ensures
        enc_tasks(ts.take(i + 1)) == enc_tasks(ts.take(i)) + enc_task(ts[i]),
    decreases i,
{
    if i == 0 {
        assert(ts.take(1).first() == ts[0]);
        assert(ts.take(1).drop_first() =~= Seq::<TaskV>::empty());
        assert(ts.take(0) =~= Seq::<TaskV>::empty());
        assert(enc_tasks(ts.take(1)) =~= enc_tasks(ts.take(0)) + enc_task(ts[0]));
    } else {
        lemma_enc_tasks_take(ts.drop_first(), i - 1);
        assert(ts.take(i + 1).first() == ts[0]);
        assert(ts.take(i + 1).drop_first() =~= ts.drop_first().take(i));
        assert(ts.take(i).first() == ts[0]);
        assert(ts.take(i).drop_first() =~= ts.drop_first().take(i - 1));
        assert(ts.drop_first()[i - 1] == ts[i]);
        assert(enc_tasks(ts.take(i + 1)) =~= enc_tasks(ts.take(i)) + enc_task(ts[i]));
    }
}

/// The store text of a prefix grows one block at a time.
proof fn lemma_enc_store_take(s: Seq<EntryV>, i: int)
    requires
        0 <= i < s.len(),
    ensures
        enc_store(s.take(i + 1)) == enc_store(s.take(i)) + enc_entry(s[i]),
    decreases i,
{
    if i == 0 {
        assert(s.take(1).first() == s[0]);
        assert(s.take(1).drop_first() =~= Seq::<EntryV>::empty());
        assert(s.take(0) =~= Seq::<EntryV>::empty());
        assert(enc_store(s.take(1)) =~= enc_store(s.take(0)) + enc_entry(s[0]));
    } else {
        lemma_enc_store_take(s.drop_first(), i - 1);
        assert(s.take(i + 1).first() == s[0]);
        assert(s.take(i + 1).drop_first() =~= s.drop_first().take(i));
        assert(s.take(i).first() == s[0]);
        assert(s.take(i).drop_first() =~= s.drop_first().take(i - 1));
        assert(s.drop_first()[i - 1] == s[i]);
        assert(enc_store(s.take(i + 1)) =~= enc_store(s.take(i)) + enc_entry(s[i]));
    }
}

/// Appends the task lines of one date's list, in order.
fn push_tasks(out: &mut Vec<char>, ts: &Vec<Task>)
    ensures
        final(out)@ == old(out)@ + enc_tasks(crate::store::view_tasks(ts@)),
{
    let ghost base = out@;
    let ghost tsv = crate::store::view_tasks(ts@);
    proof {
        assert(tsv.take(0) =~= Seq::<TaskV>::empty());
    }
    let n = ts.len();
    let mut j: usize = 0;
    while j < n
        invariant
            j <= n,
            n == ts@.len(),
            tsv == crate::store::view_tasks(ts@),
            tsv.len() == n,
            out@ =~= base + enc_tasks(tsv.take(j as int)),
        decreases n - j,
    {
        push_task(out, &ts[j]);
        proof {
            lemma_enc_tasks_take(tsv, j as int);
            assert(tsv[j as int] == ts@[j as int]@);
            assert(out@ =~= base + enc_tasks(tsv.take(j as int + 1)));
        }
        j += 1;
    }
    proof {
        assert(tsv.take(n as int) =~= tsv);
    }
}

/// Writes the whole snapshot out as text.
pub fn save_chars(st: &TaskStore) -> (out: Vec<char>)
    requires
        store_wf(st@),
    ensures
        out@ == enc_store(st@),
{
    let mut out: Vec<char> = Vec::new();
    let ghost sv = st@;
    proof {
        assert(sv.take(0) =~= Seq::<EntryV>::empty());
        assert(out@ =~= Seq::<char>::empty() + enc_store(sv.take(0)));
    }
    let n = st.entries.len();
    let mut j: usize = 0;
    while j < n
        invariant
            j <= n,
            n == st.entries@.len(),
            sv == st@,
            store_wf(sv),
            sv.len() == n,
            out@ =~= enc_store(sv.take(j as int)),
        decreases n - j,
    {
        out.push('@');
        let ghost before = out@;
        proof {
            assert(sv[j as int].date == st.entries@[j as int].date@);
            assert(valid_date(st.entries@[j as int].date@));
        }
        push_date(&mut out, st.entries[j].date);
        out.push('\n');
        push_tasks(&mut out, &st.entries[j].tasks);
        proof {
            lemma_enc_store_take(sv, j as int);
            assert(sv[j as int].tasks == crate::store::view_tasks(st.entries@[j as int].tasks@));
            assert(out@ =~= enc_store(sv.take(j as int)) + enc_entry(sv[j as int]));
            assert(out@ =~= enc_store(sv.take(j as int + 1)));
        }
        j += 1;
    }
    proof {
        assert(sv.take(n as int) =~= sv);
    }
    out
}

/// Splitting a known stretch of text at a concatenation boundary.
proof fn lemma_cat_split(s: Seq<char>, i: int, a: Seq<char>, b: Seq<char>)
    requires
        0 <= i,
        i + a.len() + b.len() <= s.len(),
        s.subrange(i, i + a.len() + b.len()) == a + b,
    ensures
        s.subrange(i, i + a.len()) == a,
        s.subrange(i + a.len(), i + a.len() + b.len()) == b,
{
    let la = a.len() as int;
    let lb = b.len() as int;
    assert forall|k: int| 0 <= k < la implies s.subrange(i, i + la)[k] == a[k] by {
        assert(s.subrange(i, i + la)[k] == s[i + k]);
        assert(s.subrange(i, i + la + lb)[k] == s[i + k]);
        assert((a + b)[k] == a[k]);
    }
    assert(s.subrange(i, i + la) =~= a);
    assert forall|k: int| 0 <= k < lb implies s.subrange(i + la, i + la + lb)[k] == b[k] by {
        assert(s.subrange(i + la, i + la + lb)[k] == s[i + la + k]);
        assert(s.subrange(i, i + la + lb)[la + k] == s[i + la + k]);
        assert((a + b)[la + k] == b[k]);
    }
    assert(s.subrange(i + la, i + la + lb) =~= b);
}

/// The one character of a singleton stretch.
proof fn lemma_char_at(s: Seq<char>, i: int, c: char)
    requires
        0 <= i,
        i + 1 <= s.len(),
        s.subrange(i, i + 1) == seq![c],
    ensures
        s[i] == c,
{
    assert(s.subrange(i, i + 1)[0] == s[i]);
}

/// A zero-padded numeral bounded by a non-digit scans back to its value.
proof fn lemma_dec_num_enc(s: Seq<char>, i: int, z: Seq<char>, n: nat)
    requires
        0 <= i,
        n <= u64::MAX,
        forall|k: int| 0 <= k < z.len() ==> #[trigger] z[k] == '0',
        i + z.len() + digits_of(n).len() <= s.len(),
        s.subrange(i, i + z.len() + digits_of(n).len()) == z + digits_of(n),
        i + z.len() + digits_of(n).len() == s.len() || !is_digit(
            s[i + z.len() + digits_of(n).len()],
        ),
    ensures
        dec_num(s, i) == Option::Some((n as u64, i + z.len() + digits_of(n).len())),
{
    lemma_digits_of_val(n);
    let w = z + digits_of(n);
    let ll = w.len() as int;
    assert forall|k: int| i <= k < i + ll implies is_digit(#[trigger] s[k]) by {
        assert(s.subrange(i, i + ll)[k - i] == s[k]);
        if k - i < z.len() {
            assert(w[k - i] == '0');
        } else {
            assert(w[k - i] == digits_of(n)[k - i - z.len()]);
        }
    }
    lemma_run_end_determined(s, i, i + ll);
    lemma_val_of_zero_prefix(z, digits_of(n));
    assert(val_of(s.subrange(i, i + ll)) == n);
}

/// The written year scans back to itself when bounded by a non-digit.
proof fn lemma_dec_year_enc(s: Seq<char>, i: int, y: int)
    requires
        0 <= i,
        i64::MIN <= y <= i64::MAX,
        i + enc_year(y).len() <= s.len(),
        s.subrange(i, i + enc_year(y).len()) == enc_year(y),
        i + enc_year(y).len() == s.len() || !is_digit(s[i + enc_year(y).len()]),
    ensures
        dec_year(s, i) == Option::Some((y, i + enc_year(y).len())),
{
    let m = nat_abs(y);
    let body = pad4(m) + digits_of(m);
    lemma_digits_of_val(m);
    if y < 0 {
        assert(enc_year(y) =~= seq!['-'] + body);
        lemma_cat_split(s, i, seq!['-'], body);
        lemma_char_at(s, i, '-');
        lemma_dec_num_enc(s, i + 1, pad4(m), m);
        assert(m <= 9223372036854775808u64);
        assert(-((m as u64) as int) == y);
    } else {
        assert(enc_year(y) =~= body);
        lemma_dec_num_enc(s, i, pad4(m), m);
        assert(s.subrange(i, i + enc_year(y).len())[0] == s[i]);
        if pad4(m).len() > 0 {
            assert(body[0] == '0');
        } else {
            assert(body[0] == digits_of(m)[0]);
            assert(is_digit(digits_of(m)[0]));
        }
        assert(s[i] != '-');
        assert(m <= i64::MAX as u64);
    }
}

/// The written timestamp scans back to itself when bounded by a non-digit.
proof fn lemma_dec_i64_enc(s: Seq<char>, i: int, v: i64)
    requires
        0 <= i,
        i + enc_i64(v).len() <= s.len(),
        s.subrange(i, i + enc_i64(v).len()) == enc_i64(v),
        i + enc_i64(v).len() == s.len() || !is_digit(s[i + enc_i64(v).len()]),
    ensures
        dec_i64(s, i) == Option::Some((v, i + enc_i64(v).len())),
{
    let m = nat_abs(v as int);
    lemma_digits_of_val(m);
    if v < 0 {
        assert(enc_i64(v) =~= seq!['-'] + digits_of(m));
        lemma_cat_split(s, i, seq!['-'], digits_of(m));
        lemma_char_at(s, i, '-');
        assert(s.subrange(i + 1, i + 1 + (Seq::<char>::empty().len() + digits_of(m).len()))
            =~= Seq::<char>::empty() + digits_of(m));
        lemma_dec_num_enc(s, i + 1, Seq::empty(), m);
        assert(m <= 9223372036854775808u64);
        assert((-((m as u64) as int)) as i64 == v);
    } else {
        assert(s.subrange(i, i + (Seq::<char>::empty().len() + digits_of(m).len())) =~= Seq::<
            char,
        >::empty() + digits_of(m));
        lemma_dec_num_enc(s, i, Seq::empty(), m);
        assert(s.subrange(i, i + enc_i64(v).len())[0] == s[i]);
        assert(enc_i64(v)[0] == digits_of(m)[0]);
        assert(is_digit(digits_of(m)[0]));
        assert(s[i] != '-');
        assert(m <= i64::MAX as u64);
        assert((m as u64) as i64 == v);
    }
}

/// The written due field scans back to itself.
proof fn lemma_dec_due_enc(s: Seq<char>, i: int, o: Option<i64>)
    requires
        0 <= i,
        i + enc_due(o).len() <= s.len(),
        s.subrange(i, i + enc_due(o).len()) == enc_due(o),
        i + enc_due(o).len() == s.len() || !is_digit(s[i + enc_due(o).len()]),
    ensures
        dec_due(s, i) == Option::Some((o, i + enc_due(o).len())),
{
    match o {
        Option::None => {
            lemma_char_at(s, i, '_');
        },
        Option::Some(v) => {
            let m = nat_abs(v as int);
            lemma_digits_of_val(m);
            assert(s.subrange(i, i + enc_due(o).len())[0] == s[i]);
            if v < 0 {
                assert(enc_i64(v) =~= seq!['-'] + digits_of(m));
                assert(enc_i64(v)[0] == '-');
                assert(s[i] == '-');
            } else {
                assert(enc_i64(v)[0] == digits_of(m)[0]);
                assert(is_digit(digits_of(m)[0]));
                assert(s[i] == enc_i64(v)[0]);
            }
            assert(s[i] != '_');
            lemma_dec_i64_enc(s, i, v);
        },
    }
}

/// The written date scans back to itself when bounded by a non-digit.
proof fn lemma_dec_date_enc(s: Seq<char>, i: int, d: DateV)
    requires
        0 <= i,
        valid_date(d),
        i64::MIN <= d.y <= i64::MAX,
        i + enc_date(d).len() <= s.len(),
        s.subrange(i, i + enc_date(d).len()) == enc_date(d),
        i + enc_date(d).len() == s.len() || !is_digit(s[i + enc_date(d).len()]),
    ensures
        dec_date(s, i) == Option::Some((d, i + enc_date(d).len())),
{
    let ym = nat_abs(d.m);
    let yd = nat_abs(d.d);
    let wy = enc_year(d.y);
    let wm = pad2(ym) + digits_of(ym);
    let wd = pad2(yd) + digits_of(yd);
    lemma_digits_of_val(ym);
    lemma_digits_of_val(yd);
    assert(enc_date(d) =~= wy + (seq!['-'] + (wm + (seq!['-'] + wd))));
    let e1 = i + wy.len() as int;
    let e2 = e1 + 1 + wm.len() as int;
    lemma_cat_split(s, i, wy, seq!['-'] + (wm + (seq!['-'] + wd)));
    lemma_cat_split(s, e1, seq!['-'], wm + (seq!['-'] + wd));
    lemma_char_at(s, e1, '-');
    lemma_cat_split(s, e1 + 1, wm, seq!['-'] + wd);
    lemma_cat_split(s, e2, seq!['-'], wd);
    lemma_char_at(s, e2, '-');
    lemma_dec_year_enc(s, i, d.y);
    lemma_dec_num_enc(s, e1 + 1, pad2(ym), ym);
    lemma_dec_num_enc(s, e2 + 1, pad2(yd), yd);
    assert((DateV { y: d.y, m: ((ym as u64) as int), d: ((yd as u64) as int) }) == d);
}

/// The written task line scans back to itself.
proof fn lemma_dec_task_enc(s: Seq<char>, i: int, t: TaskV)
    requires
        0 <= i,
        t.content.len() <= u64::MAX,
        i + enc_task(t).len() <= s.len(),
        s.subrange(i, i + enc_task(t).len()) == enc_task(t),
    ensures
        dec_task(s, i) == Option::Some((t, i + enc_task(t).len())),
{
    let hd = seq!['#', tag_char(t.task_type), ' ', flag_char(t.completed), ' '];
    let wdue = enc_due(t.due_date);
    let wlen = digits_of(t.content.len());
    let ln = t.content.len() as int;
    lemma_digits_of_val(t.content.len());
    assert(enc_task(t) =~= hd + (wdue + (seq![' '] + (wlen + (seq![':'] + (t.content + seq![
        '\n',
    ]))))));
    let p1 = i + 5;
    let e1 = p1 + wdue.len() as int;
    let e2 = e1 + 1 + wlen.len() as int;
    lemma_cat_split(s, i, hd, wdue + (seq![' '] + (wlen + (seq![':'] + (t.content + seq!['\n'])))));
    lemma_cat_split(s, p1, wdue, seq![' '] + (wlen + (seq![':'] + (t.content + seq!['\n']))));
    lemma_cat_split(s, e1, seq![' '], wlen + (seq![':'] + (t.content + seq!['\n'])));
    lemma_char_at(s, e1, ' ');
    lemma_cat_split(s, e1 + 1, wlen, seq![':'] + (t.content + seq!['\n']));
    lemma_cat_split(s, e2, seq![':'], t.content + seq!['\n']);
    lemma_char_at(s, e2, ':');
    lemma_cat_split(s, e2 + 1, t.content, seq!['\n']);
    lemma_char_at(s, e2 + 1 + ln, '\n');
    assert forall|k: int| 0 <= k < 5 implies s[i + k] == hd[k] by {
        assert(s.subrange(i, i + 5)[k] == s[i + k]);
    }
    assert(s[i] == '#');
    assert(s[i + 1] == tag_char(t.task_type));
    assert(s[i + 2] == ' ');
    assert(s[i + 3] == flag_char(t.completed));
    assert(s[i + 4] == ' ');
    assert(dec_tag(s[i + 1]) == Option::Some(t.task_type));
    assert(dec_flag(s[i + 3]) == Option::Some(t.completed));
    assert(s.subrange(p1, p1 + wdue.len() as int) =~= wdue);
    lemma_dec_due_enc(s, p1, t.due_date);
    assert(s.subrange(e1 + 1, e1 + 1 + (Seq::<char>::empty().len() + wlen.len())) =~= Seq::<
        char,
    >::empty() + wlen);
    lemma_dec_num_enc(s, e1 + 1, Seq::empty(), t.content.len());
    assert((TaskV {
        content: s.subrange(e2 + 1, e2 + 1 + ln),
        task_type: t.task_type,
        completed: t.completed,
        due_date: t.due_date,
    }) =~~= t);
    assert(e2 + 2 + ln == i + enc_task(t).len());
}

/// Every entry of the snapshot that the writer can be given: a well-formed
/// date whose year a machine integer holds, and machine-sized contents.
pub open spec fn entry_ok(e: EntryV) -> bool {
    &&& valid_date(e.date)
    &&& i64::MIN <= e.date.y <= i64::MAX
    &&& forall|j: int| 0 <= j < e.tasks.len() ==> (#[trigger] e.tasks[j]).content.len() <= u64::MAX
}

pub open spec fn snapshot_ok(sv: Seq<EntryV>) -> bool {
    forall|k: int| 0 <= k < sv.len() ==> entry_ok(#[trigger] sv[k])
}

/// The written task lines of a list scan back to the list, up to the first
/// position that does not open a task line.
proof fn lemma_dec_tasks_enc(s: Seq<char>, i: int, ts: Seq<TaskV>)
    requires
        0 <= i,
        forall|j: int| 0 <= j < ts.len() ==> (#[trigger] ts[j]).content.len() <= u64::MAX,
        i + enc_tasks(ts).len() <= s.len(),
        s.subrange(i, i + enc_tasks(ts).len()) == enc_tasks(ts),
        i + enc_tasks(ts).len() == s.len() || s[i + enc_tasks(ts).len()] != '#',
    ensures
        dec_tasks(s, i) == Option::Some((ts, i + enc_tasks(ts).len())),
    decreases ts.len(),
{
    if ts.len() == 0 {
        assert(enc_tasks(ts).len() == 0);
        assert(dec_tasks(s, i) == Option::Some((Seq::<TaskV>::empty(), i)));
        assert(ts =~= Seq::<TaskV>::empty());
    } else {
        let t0 = ts.first();
        let rest = ts.drop_first();
        let w0 = enc_task(t0);
        let wr = enc_tasks(rest);
        assert(enc_tasks(ts) == w0 + wr);
        lemma_cat_split(s, i, w0, wr);
        assert(w0 =~= seq!['#', tag_char(t0.task_type), ' ', flag_char(t0.completed), ' '] + (
        enc_due(t0.due_date) + (seq![' '] + (digits_of(t0.content.len()) + (seq![':'] + (t0.content
            + seq!['\n']))))));
        assert(w0[0] == '#');
        assert(s.subrange(i, i + w0.len() as int)[0] == s[i]);
        assert(s[i] == '#');
        assert(ts[0].content.len() <= u64::MAX);
        lemma_dec_task_enc(s, i, t0);
        let e = i + w0.len() as int;
        assert(w0.len() >= 5);
        assert forall|j: int| 0 <= j < rest.len() implies (#[trigger] rest[j]).content.len()
            <= u64::MAX by {
            assert(rest[j] == ts[j + 1]);
        }
        lemma_dec_tasks_enc(s, e, rest);
        assert(seq![t0] + rest =~= ts);
    }
}

/// The written block of one date scans back to its entry, when what
/// follows the block does not open another task line.
proof fn lemma_dec_entry_enc(s: Seq<char>, i: int, e: EntryV)
    requires
        0 <= i,
        entry_ok(e),
        i + enc_entry(e).len() <= s.len(),
        s.subrange(i, i + enc_entry(e).len()) == enc_entry(e),
        i + enc_entry(e).len() == s.len() || s[i + enc_entry(e).len()] != '#',
    ensures
        dec_entry(s, i) == Option::Some((e, i + enc_entry(e).len())),
{
    let wd = enc_date(e.date);
    let wt = enc_tasks(e.tasks);
    assert(enc_entry(e) =~= seq!['@'] + (wd + (seq!['\n'] + wt)));
    lemma_cat_split(s, i, seq!['@'], wd + (seq!['\n'] + wt));
    lemma_char_at(s, i, '@');
    lemma_cat_split(s, i + 1, wd, seq!['\n'] + wt);
    let e1 = i + 1 + wd.len() as int;
    lemma_cat_split(s, e1, seq!['\n'], wt);
    lemma_char_at(s, e1, '\n');
    lemma_dec_date_enc(s, i + 1, e.date);
    lemma_dec_tasks_enc(s, e1 + 1, e.tasks);
}

/// The written snapshot, filling the rest of the text, scans back to the
/// store it came from.
proof fn lemma_dec_store_enc(s: Seq<char>, i: int, sv: Seq<EntryV>)
    requires
        0 <= i,
        snapshot_ok(sv),
        i + enc_store(sv).len() == s.len(),
        s.subrange(i, s.len() as int) == enc_store(sv),
    ensures
        dec_store(s, i) == Option::Some(sv),
    decreases sv.len(),
{
    if sv.len() == 0 {
        assert(i == s.len());
        assert(sv =~= Seq::<EntryV>::empty());
    } else {
        let h = sv.first();
        let rest = sv.drop_first();
        let w0 = enc_entry(h);
        let wr = enc_store(rest);
        assert(enc_store(sv) == w0 + wr);
        assert(s.subrange(i, i + (w0.len() + wr.len())) == w0 + wr);
        lemma_cat_split(s, i, w0, wr);
        let e = i + w0.len() as int;
        assert(sv[0] == h);
        assert(entry_ok(h));
        if rest.len() == 0 {
            assert(e == s.len());
        } else {
            let h2 = rest.first();
            assert(wr == enc_entry(h2) + enc_store(rest.drop_first()));
            assert(enc_entry(h2) =~= seq!['@'] + (enc_date(h2.date) + (seq!['\n'] + enc_tasks(
                h2.tasks,
            ))));
            assert(wr[0] == '@');
            assert(s.subrange(e, e + wr.len() as int)[0] == s[e]);
            assert(s[e] == '@');
        }
        lemma_dec_entry_enc(s, i, h);
        assert(w0.len() >= 1);
        assert forall|k: int| 0 <= k < rest.len() implies entry_ok(#[trigger] rest[k]) by {
            assert(rest[k] == sv[k + 1]);
        }
        assert(s.subrange(e, s.len() as int) == wr);
        lemma_dec_store_enc(s, e, rest);
        assert(seq![h] + rest =~= sv);
    }
}

/// Loading what was saved reproduces the snapshot exactly: every date key,
/// every task, in order, with content, kind, completion flag and due date.
pub proof fn lemma_snapshot_round_trip(sv: Seq<EntryV>)
    requires
        snapshot_ok(sv),
    ensures
        dec_snapshot(enc_store(sv)) == Option::Some(sv),
{
    let s = enc_store(sv);
    assert(s.subrange(0, s.len() as int) =~= s);
    lemma_dec_store_enc(s, 0, sv);
}

/// Reads a signed timestamp.
fn scan_i64(s: &Vec<char>, i: usize) -> (r: Option<(i64, usize)>)
    requires
        i <= s@.len(),
    ensures
        match r {
            Option::Some((v, e)) => dec_i64(s@, i as int) == Option::Some((v, e as int)) && i < e
                <= s@.len(),
            Option::None => dec_i64(s@, i as int) is None,
        },
{
    if i < s.len() && s[i] == '-' {
        match scan_number(s, i + 1) {
            Option::Some((v, e)) => if v <= 9223372036854775808u64 {
                if v == 9223372036854775808u64 {
                    Option::Some((i64::MIN, e))
                } else {
                    Option::Some((-(v as i64), e))
                }
            } else {
                Option::None
            },
            Option::None => Option::None,
        }
    } else {
        match scan_number(s, i) {
            Option::Some((v, e)) => if v <= i64::MAX as u64 {
                Option::Some((v as i64, e))
            } else {
                Option::None
            },
            Option::None => Option::None,
        }
    }
}

/// Reads the due field.
fn scan_due(s: &Vec<char>, i: usize) -> (r: Option<(Option<i64>, usize)>)
    requires
        i <= s@.len(),
    ensures
        match r {
            Option::Some((v, e)) => dec_due(s@, i as int) == Option::Some((v, e as int)) && i < e
                <= s@.len(),
            Option::None => dec_due(s@, i as int) is None,
        },
{
    if i < s.len() && s[i] == '_' {
        Option::Some((Option::None, i + 1))
    } else {
        match scan_i64(s, i) {
            Option::Some((v, e)) => Option::Some((Option::Some(v), e)),
            Option::None => Option::None,
        }
    }
}

/// Reads an ISO calendar date and rejects ill-formed ones.
fn scan_date(s: &Vec<char>, i: usize) -> (r: Option<(Date, usize)>)
    requires
        i <= s@.len(),
    ensures
        match r {
            Option::Some((d, e)) => dec_date(s@, i as int) == Option::Some((d@, e as int))
                && d.wf() && i < e <= s@.len(),
            Option::None => dec_date(s@, i as int) is None,
        },
{
    let y: i64;
    let e1: usize;
    if i < s.len() && s[i] == '-' {
        match scan_number(s, i + 1) {
            Option::Some((v, e)) => {
                if v <= 9223372036854775808u64 {
                    if v == 9223372036854775808u64 {
                        y = i64::MIN;
                    } else {
                        y = -(v as i64);
                    }
                    e1 = e;
                } else {
                    return Option::None;
                }
            },
            Option::None => {
                return Option::None;
            },
        }
    } else {
        match scan_number(s, i) {
            Option::Some((v, e)) => {
                if v <= i64::MAX as u64 {
                    y = v as i64;
                    e1 = e;
                } else {
                    return Option::None;
                }
            },
            Option::None => {
                return Option::None;
            },
        }
    }
    proof {
        assert(dec_year(s@, i as int) == Option::Some((y as int, e1 as int)));
    }
    if !(e1 < s.len() && s[e1] == '-') {
        return Option::None;
    }
    let m: u64;
    let e2: usize;
    match scan_number(s, e1 + 1) {
        Option::Some((v, e)) => {
            m = v;
            e2 = e;
        },
        Option::None => {
            return Option::None;
        },
    }
    if !(e2 < s.len() && s[e2] == '-') {
        return Option::None;
    }
    let dd: u64;
    let e3: usize;
    match scan_number(s, e2 + 1) {
        Option::Some((v, e)) => {
            dd = v;
            e3 = e;
        },
        Option::None => {
            return Option::None;
        },
    }
    if 1 <= m && m <= 12 && 1 <= dd && dd <= 31 {
        let date = Date { year: y, month: m as u8, day: dd as u8 };
        if date.is_valid() {
            Option::Some((date, e3))
        } else {
            Option::None
        }
    } else {
        proof {
            assert(!valid_date(DateV { y: y as int, m: m as int, d: dd as int }));
        }
        Option::None
    }
}

/// Reads one task line.
#[verifier::loop_isolation(false)]
fn scan_task(s: &Vec<char>, i: usize) -> (r: Option<(Task, usize)>)
    requires
        i <= s@.len(),
    ensures
        match r {
            Option::Some((t, e)) => dec_task(s@, i as int) == Option::Some((t@, e as int)) && i
                < e <= s@.len(),
            Option::None => dec_task(s@, i as int) is None,
        },
{
    let len = s.len();
    if len - i < 5 {
        return Option::None;
    }
    if !(s[i] == '#' && s[i + 2] == ' ' && s[i + 4] == ' ') {
        return Option::None;
    }
    let c1 = s[i + 1];
    let tt: TaskType;
    if c1 == 'T' {
        tt = TaskType::Todo;
    } else if c1 == 'E' {
        tt = TaskType::Event;
    } else if c1 == 'N' {
        tt = TaskType::Note;
    } else {
        return Option::None;
    }
    let c3 = s[i + 3];
    let fl: bool;
    if c3 == '0' {
        fl = false;
    } else if c3 == '1' {
        fl = true;
    } else {
        return Option::None;
    }
    let due: Option<i64>;
    let e1: usize;
    match scan_due(s, i + 5) {
        Option::Some((v, e)) => {
            due = v;
            e1 = e;
        },
        Option::None => {
            return Option::None;
        },
    }
    if !(e1 < len && s[e1] == ' ') {
        return Option::None;
    }
    let ln: u64;
    let e2: usize;
    match scan_number(s, e1 + 1) {
        Option::Some((v, e)) => {
            ln = v;
            e2 = e;
        },
        Option::None => {
            return Option::None;
        },
    }
    if !(e2 < len && s[e2] == ':') {
        return Option::None;
    }
    let rem = len - e2 - 1;
    if !(ln < rem as u64) {
        proof {
            assert(e2 + 2 + ln > s@.len());
        }
        return Option::None;
    }
    proof {
        assert(ln <= usize::MAX as u64);
    }
    let ln_us = ln as usize;
    proof {
        assert(ln_us as u64 == ln);
    }
    if !(s[e2 + 1 + ln_us] == '\n') {
        return Option::None;
    }
    let mut content: Vec<char> = Vec::new();
    let mut j: usize = 0;
    while j < ln_us
        invariant
            j <= ln_us,
            e2 + 1 + ln_us < len,
            len == s@.len(),
            content@ =~= s@.subrange(e2 as int + 1, e2 as int + 1 + j as int),
        decreases ln_us - j,
    {
        content.push(s[e2 + 1 + j]);
        proof {
            assert(content@ =~= s@.subrange(e2 as int + 1, e2 as int + 1 + j as int + 1));
        }
        j += 1;
    }
    let t = Task { content, task_type: tt, completed: fl, due_date: due };
    proof {
        assert(t@ =~~= (TaskV {
            content: s@.subrange(e2 as int + 1, e2 as int + 1 + ln as int),
            task_type: tt,
            completed: fl,
            due_date: due,
        }));
    }
    Option::Some((t, e2 + 2 + ln_us))
}

/// Reads the run of task lines from `i`.
#[verifier::loop_isolation(false)]
fn scan_tasks(s: &Vec<char>, i: usize) -> (r: Option<(Vec<Task>, usize)>)
    requires
        i <= s@.len(),
    ensures
        match r {
            Option::Some((ts, e)) => dec_tasks(s@, i as int) == Option::Some(
                (crate::store::view_tasks(ts@), e as int),
            ) && i <= e <= s@.len(),
            Option::None => dec_tasks(s@, i as int) is None,
        },
{
    let len = s.len();
    let mut acc: Vec<Task> = Vec::new();
    let mut cur = i;
    proof {
        assert(crate::store::view_tasks(acc@) =~= Seq::<TaskV>::empty());
    }
    while cur < len && s[cur] == '#'
        invariant
            i <= cur <= len,
            len == s@.len(),
            forall|ts: Seq<TaskV>, e: int|
                dec_tasks(s@, cur as int) == Option::Some((ts, e)) ==> dec_tasks(s@, i as int)
                    == Option::Some((crate::store::view_tasks(acc@) + ts, e)),
            dec_tasks(s@, cur as int) is None ==> dec_tasks(s@, i as int) is None,
        decreases len - cur,
    {
        let ghost acc0 = crate::store::view_tasks(acc@);
        match scan_task(s, cur) {
            Option::Some((t, e)) => {
                acc.push(t);
                proof {
                    assert(crate::store::view_tasks(acc@) =~= acc0 + seq![t@]);
                    assert forall|ts2: Seq<TaskV>, e2: int|
                        dec_tasks(s@, e as int) == Option::Some((ts2, e2)) implies dec_tasks(
                        s@,
                        i as int,
                    ) == Option::Some((crate::store::view_tasks(acc@) + ts2, e2)) by {
                        assert(dec_tasks(s@, cur as int) == Option::Some(
                            (seq![t@] + ts2, e2),
                        ));
                        assert(acc0 + (seq![t@] + ts2) =~= (acc0 + seq![t@]) + ts2);
                    }
                }
                cur = e;
            },
            Option::None => {
                proof {
                    assert(dec_tasks(s@, cur as int) is None);
                }
                return Option::None;
            },
        }
    }
    proof {
        assert(dec_tasks(s@, cur as int) == Option::Some((Seq::<TaskV>::empty(), cur as int)));
        assert(crate::store::view_tasks(acc@) + Seq::<TaskV>::empty() =~= crate::store::view_tasks(
            acc@,
        ));
    }
    Option::Some((acc, cur))
}

/// Reads one date's block.
fn scan_entry(s: &Vec<char>, i: usize) -> (r: Option<(DayEntry, usize)>)
    requires
        i <= s@.len(),
    ensures
        match r {
            Option::Some((ent, e)) => dec_entry(s@, i as int) == Option::Some((ent@, e as int))
                && i < e <= s@.len(),
            Option::None => dec_entry(s@, i as int) is None,
        },
{
    let len = s.len();
    if !(i < len && s[i] == '@') {
        return Option::None;
    }
    let date: Date;
    let e1: usize;
    match scan_date(s, i + 1) {
        Option::Some((d, e)) => {
            date = d;
            e1 = e;
        },
        Option::None => {
            return Option::None;
        },
    }
    if !(e1 < len && s[e1] == '\n') {
        return Option::None;
    }
    match scan_tasks(s, e1 + 1) {
        Option::Some((ts, e2)) => {
            let ent = DayEntry { date, tasks: ts };
            proof {
                assert(ent@ =~~= (EntryV {
                    date: date@,
                    tasks: crate::store::view_tasks(ts@),
                }));
            }
            Option::Some((ent, e2))
        },
        Option::None => Option::None,
    }
}

/// Reads a whole snapshot back; `None` on any text the writer would not
/// produce. The result's date keys are not checked for duplicates here:
/// `check_store_wf` does that, and the loader's caller falls back to an
/// empty store on either failure.
#[verifier::loop_isolation(false)]
pub fn load_chars(s: &Vec<char>) -> (r: Option<TaskStore>)
    ensures
        match r {
            Option::Some(st) => dec_snapshot(s@) == Option::Some(st@),
            Option::None => dec_snapshot(s@) is None,
        },
{
    let len = s.len();
    let mut acc: Vec<DayEntry> = Vec::new();
    let mut cur: usize = 0;
    proof {
        let st0 = TaskStore { entries: acc };
        assert(st0@ =~= Seq::<EntryV>::empty());
    }
    while cur < len
        invariant
            cur <= len,
            len == s@.len(),
            forall|sv: Seq<EntryV>|
                dec_store(s@, cur as int) == Option::Some(sv) ==> dec_store(s@, 0)
                    == Option::Some((TaskStore { entries: acc })@ + sv),
            dec_store(s@, cur as int) is None ==> dec_store(s@, 0) is None,
        decreases len - cur,
    {
        let ghost acc0 = (TaskStore { entries: acc })@;
        match scan_entry(s, cur) {
            Option::Some((ent, e)) => {
                let ghost entv = ent@;
                acc.push(ent);
                proof {
                    assert((TaskStore { entries: acc })@ =~= acc0 + seq![entv]);
                    assert forall|sv2: Seq<EntryV>|
                        dec_store(s@, e as int) == Option::Some(sv2) implies dec_store(s@, 0)
                        == Option::Some((TaskStore { entries: acc })@ + sv2) by {
                        assert(dec_store(s@, cur as int) == Option::Some(seq![entv] + sv2));
                        assert(acc0 + (seq![entv] + sv2) =~= (acc0 + seq![entv]) + sv2);
                    }
                }
                cur = e;
            },
            Option::None => {
                return Option::None;
            },
        }
    }
    let st = TaskStore { entries: acc };
    proof {
        assert(dec_store(s@, cur as int) == Option::Some(Seq::<EntryV>::empty()));
        assert(st@ + Seq::<EntryV>::empty() =~= st@);
    }
    Option::Some(st)
}

/// True exactly when the store invariant holds: pairwise distinct,
/// well-formed date keys.
#[verifier::loop_isolation(false)]
pub fn check_store_wf(st: &TaskStore) -> (r: bool)
    ensures
        r == store_wf(st@),
{
    let n = st.entries.len();
    let mut k: usize = 0;
    while k < n
        invariant
            k <= n,
            n == st.entries@.len(),
            forall|k1: int, k2: int|
                0 <= k1 < k2 < k ==> (#[trigger] st@[k1].date) != (#[trigger] st@[k2].date),
            forall|k1: int| 0 <= k1 < k ==> valid_date((#[trigger] st@[k1]).date),
        decreases n - k,
    {
        if !st.entries[k].date.is_valid() {
            proof {
                assert(st@[k as int] == st.entries@[k as int]@);
                assert(!valid_date(st@[k as int].date));
            }
            return false;
        }
        let mut j: usize = 0;
        while j < k
            invariant
                j <= k < n,
                n == st.entries@.len(),
                forall|k1: int| 0 <= k1 < j ==> (#[trigger] st@[k1].date) != st@[k as int].date,
            decreases k - j,
        {
            if st.entries[j].date == st.entries[k].date {
                proof {
                    assert(st@[j as int] == st.entries@[j as int]@);
                    assert(st@[k as int] == st.entries@[k as int]@);
                    assert(st@[j as int].date == st@[k as int].date);
                }
                return false;
            }
            j += 1;
        }
        k += 1;
    }
    true
}

/// The serializable image of the task store, the unit of persistence.
pub struct StorageData {
    pub tasks: TaskStore,
}

impl StorageData {
    pub fn new(tasks: TaskStore) -> (s: StorageData)
        ensures
            s.tasks@ == tasks@,
    {
        StorageData { tasks }
    }
}

} // verus!
