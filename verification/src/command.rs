use vstd::prelude::*;

use crate::digits::{all_digits, is_digit, lemma_run_end_facts, run_end, scan_number, val_of};

verus! {

/// A structured instruction parsed from the input buffer.
#[derive(Debug, PartialEq)]
pub enum Command {
    AddTask(Vec<char>),
    DeleteTask(usize),
    Toggle(usize),
    Quit,
    Invalid,
}

/// Model of a parsed command.
pub enum CommandV {
    AddTask(Seq<char>),
    DeleteTask(int),
    Toggle(int),
    Quit,
    Invalid,
}

impl View for Command {
    type V = CommandV;

    open spec fn view(&self) -> CommandV {
        match self {
            Command::AddTask(t) => CommandV::AddTask(t@),
            Command::DeleteTask(i) => CommandV::DeleteTask(*i as int),
            Command::Toggle(i) => CommandV::Toggle(*i as int),
            Command::Quit => CommandV::Quit,
            Command::Invalid => CommandV::Invalid,
        }
    }
}

/// Unicode white space, the set the buffer is trimmed by.
pub open spec fn is_space(c: char) -> bool {
    c == ' ' || c == '\t' || c == '\n' || c == '\r' || c == '\u{b}' || c == '\u{c}' || c
        == '\u{85}' || c == '\u{a0}' || c == '\u{1680}' || c == '\u{2000}' || c == '\u{2001}' || c
        == '\u{2002}' || c == '\u{2003}' || c == '\u{2004}' || c == '\u{2005}' || c == '\u{2006}'
        || c == '\u{2007}' || c == '\u{2008}' || c == '\u{2009}' || c == '\u{200a}' || c
        == '\u{2028}' || c == '\u{2029}' || c == '\u{202f}' || c == '\u{205f}' || c == '\u{3000}'
}

pub fn is_space_x(c: char) -> (r: bool)
    ensures
        r == is_space(c),
{
    c == ' ' || c == '\t' || c == '\n' || c == '\r' || c == '\u{b}' || c == '\u{c}' || c
        == '\u{85}' || c == '\u{a0}' || c == '\u{1680}' || c == '\u{2000}' || c == '\u{2001}' || c
        == '\u{2002}' || c == '\u{2003}' || c == '\u{2004}' || c == '\u{2005}' || c == '\u{2006}'
        || c == '\u{2007}' || c == '\u{2008}' || c == '\u{2009}' || c == '\u{200a}' || c
        == '\u{2028}' || c == '\u{2029}' || c == '\u{202f}' || c == '\u{205f}' || c == '\u{3000}'
}

/// First position at or after `i` that does not hold white space.
pub open spec fn trim_start_idx(s: Seq<char>, i: int) -> int
    decreases s.len() - i when 0 <= i <= s.len()
{
    if i < s.len() && is_space(s[i]) {
        trim_start_idx(s, i + 1)
    } else {
        i
    }
}

/// End of the text once trailing white space before `j` is dropped.
pub open spec fn trim_end_idx(s: Seq<char>, j: int) -> int
    decreases j when 0 <= j <= s.len()
{
    if j > 0 && is_space(s[j - 1]) {
        trim_end_idx(s, j - 1)
    } else {
        j
    }
}

/// The buffer with white space stripped from both ends.
pub open spec fn trimmed(s: Seq<char>) -> Seq<char> {
    let a = trim_start_idx(s, 0);
    let b = trim_end_idx(s, s.len() as int);
    if a <= b {
        s.subrange(a, b)
    } else {
        Seq::empty()
    }
}

/// A non-negative index written in decimal, with an optional leading `+`,
/// as `usize` reads it; `None` on anything else or on overflow.
pub open spec fn parse_index(t: Seq<char>) -> Option<int> {
    let u = if t.len() > 0 && t[0] == '+' {
        t.subrange(1, t.len() as int)
    } else {
        t
    };
    if u.len() > 0 && all_digits(u) && val_of(u) <= usize::MAX {
        Some(val_of(u))
    } else {
        None
    }
}

/// Meaning of the command language on a raw buffer: the first matching
/// prefix of the trimmed text wins, case-sensitively.
pub open spec fn parse_c(raw: Seq<char>) -> CommandV {
    let s = trimmed(raw);
    if s.len() >= 4 && s.subrange(0, 4) == seq!['a', 'd', 'd', ' '] {
        CommandV::AddTask(s.subrange(4, s.len() as int))
    } else if s.len() >= 4 && s.subrange(0, 4) == seq!['d', 'e', 'l', ' '] {
        match parse_index(s.subrange(4, s.len() as int)) {
            Some(n) => CommandV::DeleteTask(n),
            None => CommandV::Invalid,
        }
    } else if s.len() >= 5 && s.subrange(0, 5) == seq!['d', 'o', 'n', 'e', ' '] {
        match parse_index(s.subrange(5, s.len() as int)) {
            Some(n) => CommandV::Toggle(n),
            None => CommandV::Invalid,
        }
    } else if s == seq!['q'] || s == seq!['q', 'u', 'i', 't'] {
        CommandV::Quit
    } else {
        CommandV::Invalid
    }
}

proof fn lemma_trim_start_determined(s: Seq<char>, i: int, a: int)
    requires
        0 <= i <= a <= s.len(),
        forall|k: int| i <= k < a ==> is_space(#[trigger] s[k]),
        a == s.len() || !is_space(s[a]),
    ensures
        trim_start_idx(s, i) == a,
    decreases a - i,
{
    if i < a {
        lemma_trim_start_determined(s, i + 1, a);
    }
}

proof fn lemma_trim_end_determined(s: Seq<char>, j: int, b: int)
    requires
        0 <= b <= j <= s.len(),
        forall|k: int| b <= k < j ==> is_space(#[trigger] s[k]),
        b == 0 || !is_space(s[b - 1]),
    ensures
        trim_end_idx(s, j) == b,
    decreases j - b,
{
    if b < j {
        lemma_trim_end_determined(s, j - 1, b);
    }
}

/// No character is both a decimal digit and white space.
proof fn lemma_digit_not_space(c: char)
    ensures
        !(is_digit(c) && is_space(c)),
{
}

/// Reads the decimal index in `buf[lo..hi]` as `parse_index` means it.
fn parse_index_x(buf: &Vec<char>, lo: usize, hi: usize) -> (r: Option<usize>)
    requires
        lo <= hi <= buf@.len(),
        hi == buf@.len() || !is_digit(buf@[hi as int]),
    ensures
        match r {
            Some(v) => parse_index(buf@.subrange(lo as int, hi as int)) == Some(v as int),
            None => parse_index(buf@.subrange(lo as int, hi as int)) is None,
        },
{
    let ghost t = buf@.subrange(lo as int, hi as int);
    let mut start = lo;
    if lo < hi && buf[lo] == '+' {
        start = lo + 1;
    }
    let ghost u = buf@.subrange(start as int, hi as int);
    proof {
        if t.len() > 0 && t[0] == '+' {
            assert(u =~= t.subrange(1, t.len() as int));
        } else {
            assert(u =~= t);
        }
    }
    if start == hi {
        return None;
    }
    let scanned = scan_number(buf, start);
    match scanned {
        Some((v, e)) => {
            proof {
                lemma_run_end_facts(buf@, start as int);
            }
            if e == hi {
                proof {
                    assert forall|k: int| 0 <= k < u.len() implies is_digit(#[trigger] u[k]) by {
                        assert(u[k] == buf@[start + k]);
                    }
                    assert(u =~= buf@.subrange(start as int, e as int));
                    crate::digits::lemma_val_of_nonneg(u);
                    assert(val_of(u) == v as int);
                }
                if v <= (usize::MAX as u64) {
                    Some(v as usize)
                } else {
                    None
                }
            } else {
                proof {
                    let re = run_end(buf@, start as int);
                    assert(re == e as int);
                    assert(e < hi);
                    assert(!is_digit(buf@[e as int]));
                    assert(u[e - start] == buf@[e as int]);
                    assert(!all_digits(u));
                }
                None
            }
        },
        None => {
            proof {
                let re = run_end(buf@, start as int);
                lemma_run_end_facts(buf@, start as int);
                if re == start {
                    assert(start < hi);
                    assert(!is_digit(buf@[start as int]));
                    assert(u[0] == buf@[start as int]);
                    assert(!all_digits(u));
                } else {
                    assert(val_of(buf@.subrange(start as int, re)) > u64::MAX);
                    if re > hi as int {
                        assert(is_digit(buf@[hi as int]));
                        assert(false);
                    }
                    if re < hi as int {
                        assert(!is_digit(buf@[re]));
                        assert(u[re - start] == buf@[re]);
                        assert(!all_digits(u));
                    } else {
                        assert(u =~= buf@.subrange(start as int, re));
                        assert(val_of(u) > u64::MAX >= usize::MAX);
                    }
                }
            }
            None
        },
    }
}

/// Copies `buf[lo..hi]` out as the content of an added task.
fn copy_range(buf: &Vec<char>, lo: usize, hi: usize) -> (r: Vec<char>)
    requires
        lo <= hi <= buf@.len(),
    ensures
        r@ == buf@.subrange(lo as int, hi as int),
{
    let mut out: Vec<char> = Vec::new();
    let mut j = lo;
    while j < hi
        invariant
            lo <= j <= hi <= buf@.len(),
            out@ =~= buf@.subrange(lo as int, j as int),
        decreases hi - j,
    {
        out.push(buf[j]);
        proof {
            assert(out@ =~= buf@.subrange(lo as int, j as int + 1));
        }
        j += 1;
    }
    proof {
        assert(out@ =~= buf@.subrange(lo as int, hi as int));
    }
    out
}

/// Parses a raw input buffer into a command, exactly as `parse_c` means it.
pub fn parse_buffer(buf: &Vec<char>) -> (c: Command)
    ensures
        c@ == parse_c(buf@),
{
    let n = buf.len();
    let mut a: usize = 0;
    while a < n && is_space_x(buf[a])
        invariant
            a <= n,
            n == buf@.len(),
            forall|k: int| 0 <= k < a ==> is_space(#[trigger] buf@[k]),
        decreases n - a,
    {
        a += 1;
    }
    let mut b: usize = n;
    while b > a && is_space_x(buf[b - 1])
        invariant
            a <= b <= n,
            n == buf@.len(),
            forall|k: int| b <= k < n ==> is_space(#[trigger] buf@[k]),
        decreases b,
    {
        b -= 1;
    }
    proof {
        lemma_trim_start_determined(buf@, 0, a as int);
        if a == b {
            if a < n {
                assert(!is_space(buf@[a as int]));
                assert(is_space(buf@[a as int]));
            }
            lemma_trim_end_determined(buf@, n as int, 0);
            assert(trimmed(buf@) =~= buf@.subrange(a as int, b as int));
        } else {
            assert(!is_space(buf@[b - 1]));
            lemma_trim_end_determined(buf@, n as int, b as int);
            assert(trimmed(buf@) =~= buf@.subrange(a as int, b as int));
        }
    }
    let ghost s = trimmed(buf@);
    if b - a >= 4 && buf[a] == 'a' && buf[a + 1] == 'd' && buf[a + 2] == 'd' && buf[a + 3] == ' ' {
        proof {
            assert(s.subrange(0, 4) =~= seq!['a', 'd', 'd', ' ']);
        }
        let content = copy_range(buf, a + 4, b);
        proof {
            assert(content@ =~= s.subrange(4, s.len() as int));
        }
        Command::AddTask(content)
    } else if b - a >= 4 && buf[a] == 'd' && buf[a + 1] == 'e' && buf[a + 2] == 'l' && buf[a + 3]
        == ' ' {
        proof {
            assert(s.subrange(0, 4) =~= seq!['d', 'e', 'l', ' ']);
            assert(s.subrange(0, 4) != seq!['a', 'd', 'd', ' ']) by {
                assert(s.subrange(0, 4)[0] == 'd');
            }
            if b < n {
                assert(is_space(buf@[b as int]));
                lemma_digit_not_space(buf@[b as int]);
            }
            assert(s.subrange(4, s.len() as int) =~= buf@.subrange(a as int + 4, b as int));
        }
        let idx = parse_index_x(buf, a + 4, b);
        match idx {
            Some(v) => Command::DeleteTask(v),
            None => Command::Invalid,
        }
    } else if b - a >= 5 && buf[a] == 'd' && buf[a + 1] == 'o' && buf[a + 2] == 'n' && buf[a + 3]
        == 'e' && buf[a + 4] == ' ' {
        proof {
            assert(s.subrange(0, 5) =~= seq!['d', 'o', 'n', 'e', ' ']);
            assert(s.subrange(0, 4) != seq!['a', 'd', 'd', ' ']) by {
                assert(s.subrange(0, 4)[0] == 'd');
            }
            assert(s.subrange(0, 4) != seq!['d', 'e', 'l', ' ']) by {
                assert(s.subrange(0, 4)[1] == 'o');
            }
            if b < n {
                assert(is_space(buf@[b as int]));
                lemma_digit_not_space(buf@[b as int]);
            }
            assert(s.subrange(5, s.len() as int) =~= buf@.subrange(a as int + 5, b as int));
        }
        let idx = parse_index_x(buf, a + 5, b);
        match idx {
            Some(v) => Command::Toggle(v),
            None => Command::Invalid,
        }
    } else if b - a == 1 && buf[a] == 'q' {
        proof {
            assert(s =~= seq!['q']);
        }
        Command::Quit
    } else if b - a == 4 && buf[a] == 'q' && buf[a + 1] == 'u' && buf[a + 2] == 'i' && buf[a + 3]
        == 't' {
        proof {
            assert(s =~= seq!['q', 'u', 'i', 't']);
            assert(s.subrange(0, 4) != seq!['a', 'd', 'd', ' ']) by {
                assert(s.subrange(0, 4)[0] == 'q');
            }
            assert(s.subrange(0, 4) != seq!['d', 'e', 'l', ' ']) by {
                assert(s.subrange(0, 4)[0] == 'q');
            }
        }
        Command::Quit
    } else {
        proof {
            if s.len() >= 4 && s.subrange(0, 4) == seq!['a', 'd', 'd', ' '] {
                assert(buf@[a as int] == s[0]);
                assert(buf@[a as int + 1] == s[1]);
                assert(buf@[a as int + 2] == s[2]);
                assert(buf@[a as int + 3] == s[3]);
                assert(false);
            }
            if s.len() >= 4 && s.subrange(0, 4) == seq!['d', 'e', 'l', ' '] {
                assert(buf@[a as int] == s[0]);
                assert(buf@[a as int + 1] == s[1]);
                assert(buf@[a as int + 2] == s[2]);
                assert(buf@[a as int + 3] == s[3]);
                assert(false);
            }
            if s.len() >= 5 && s.subrange(0, 5) == seq!['d', 'o', 'n', 'e', ' '] {
                assert(buf@[a as int] == s[0]);
                assert(buf@[a as int + 1] == s[1]);
                assert(buf@[a as int + 2] == s[2]);
                assert(buf@[a as int + 3] == s[3]);
                assert(buf@[a as int + 4] == s[4]);
                assert(false);
            }
            if s == seq!['q'] {
                assert(buf@[a as int] == s[0]);
                assert(false);
            }
            if s == seq!['q', 'u', 'i', 't'] {
                assert(buf@[a as int] == s[0]);
                assert(buf@[a as int + 1] == s[1]);
                assert(buf@[a as int + 2] == s[2]);
                assert(buf@[a as int + 3] == s[3]);
                assert(false);
            }
        }
        Command::Invalid
    }
}

} // verus!
