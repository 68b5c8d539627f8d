use vstd::prelude::*;

use crate::command::{parse_buffer, parse_c, Command, CommandV};
use crate::date::{minus_days, next_date, plus_days, prev_date, valid_date, Date, DateV};
use crate::store::{add_s, delete_s, store_wf, toggle_s, EntryV, TaskStore, TaskType};

verus! {

/// The exclusive interaction mode governing what keystrokes mean.
/// `Plan` and `Reflect` are declared but deliberately not yet reachable:
/// they are placeholders for planned features, left unwired on purpose.
#[derive(Clone, Copy, PartialEq, Eq, Structural, Debug)]
pub enum Mode {
    Normal,
    Insert,
    Command,
    Plan,
    Reflect,
    Future,
}

/// Kinds of logs a journal page can present.
#[derive(Clone, Copy, PartialEq, Eq, Structural, Debug)]
pub enum Log {
    Index,
    Today,
    Weekly,
    Monthly,
    Yearly,
    Future,
    Chapter,
}

/// Kinds of actions a journal entry can record.
#[derive(Clone, Copy, PartialEq, Eq, Structural, Debug)]
pub enum Action {
    Task,
    Note,
    Mood,
    Event,
}

pub open spec fn mode_label(m: Mode) -> Seq<char> {
    match m {
        Mode::Normal => seq!['N', 'o', 'r', 'm', 'a', 'l'],
        Mode::Insert => seq!['I', 'n', 's', 'e', 'r', 't'],
        Mode::Command => seq!['C', 'o', 'm', 'm', 'a', 'n', 'd'],
        Mode::Plan => seq!['P', 'l', 'a', 'n'],
        Mode::Reflect => seq!['R', 'e', 'f', 'l', 'e', 'c', 't'],
        Mode::Future => seq!['F', 'u', 't', 'u', 'r', 'e'],
    }
}

impl Mode {
    /// Display name of the mode.
    pub fn name(&self) -> (r: &'static str)
        ensures
            r@ == mode_label(*self),
    {
        proof {
            reveal_strlit("Normal");
            reveal_strlit("Insert");
            reveal_strlit("Command");
            reveal_strlit("Plan");
            reveal_strlit("Reflect");
            reveal_strlit("Future");
        }
        match self {
            Mode::Normal => "Normal",
            Mode::Insert => "Insert",
            Mode::Command => "Command",
            Mode::Plan => "Plan",
            Mode::Reflect => "Reflect",
            Mode::Future => "Future",
        }
    }
}

/// The model of a key press the state machine consumes.
#[derive(Clone, Copy, PartialEq, Eq, Structural, Debug)]
pub enum Key {
    Char(char),
    Esc,
    Backspace,
    Enter,
    Other,
}

/// The current date together with the time of day, in seconds from
/// midnight. Day and week steps move the date only; the time of day is
/// carried along unchanged and never affects task keying.
#[derive(Clone, Copy, PartialEq, Eq, Structural, Debug)]
pub struct Cursor {
    pub date: Date,
    pub secs: u32,
}

/// The whole application state: mode, task store, cursor, input buffer,
/// and the session's terminate flag.
pub struct App {
    pub mode: Mode,
    pub tasks: TaskStore,
    pub current_date: Cursor,
    pub input_buffer: Vec<char>,
    pub should_quit: bool,
}

/// Model of the application state.
#[verifier::ext_equal]
pub struct AppV {
    pub mode: Mode,
    pub tasks: Seq<EntryV>,
    pub date: DateV,
    pub secs: u32,
    pub buffer: Seq<char>,
    pub quit: bool,
}

impl View for App {
    type V = AppV;

    open spec fn view(&self) -> AppV {
        AppV {
            mode: self.mode,
            tasks: self.tasks@,
            date: self.current_date.date@,
            secs: self.current_date.secs,
            buffer: self.input_buffer@,
            quit: self.should_quit,
        }
    }
}

/// Application invariant: a well-formed cursor date, a time of day below
/// one full day, and a well-formed store.
pub open spec fn app_wf(a: AppV) -> bool {
    &&& valid_date(a.date)
    &&& a.secs < 86400
    &&& store_wf(a.tasks)
}

pub open spec fn with_mode(a: AppV, m: Mode) -> AppV {
    AppV { mode: m, tasks: a.tasks, date: a.date, secs: a.secs, buffer: a.buffer, quit: a.quit }
}

pub open spec fn with_date(a: AppV, d: DateV) -> AppV {
    AppV { mode: a.mode, tasks: a.tasks, date: d, secs: a.secs, buffer: a.buffer, quit: a.quit }
}

pub open spec fn with_buffer(a: AppV, b: Seq<char>) -> AppV {
    AppV { mode: a.mode, tasks: a.tasks, date: a.date, secs: a.secs, buffer: b, quit: a.quit }
}

pub open spec fn with_tasks(a: AppV, t: Seq<EntryV>) -> AppV {
    AppV { mode: a.mode, tasks: t, date: a.date, secs: a.secs, buffer: a.buffer, quit: a.quit }
}

pub open spec fn with_quit(a: AppV) -> AppV {
    AppV { mode: a.mode, tasks: a.tasks, date: a.date, secs: a.secs, buffer: a.buffer, quit: true }
}

/// Executing the buffered command: the parsed command mutates the store at
/// the cursor's date (or sets the terminate flag), and regardless of which
/// command resulted, the buffer is cleared and the mode returns to Normal.
pub open spec fn run_command(a: AppV) -> AppV {
    let t1 = match parse_c(a.buffer) {
        CommandV::AddTask(content) => add_s(a.tasks, a.date, content, TaskType::Todo),
        CommandV::DeleteTask(i) => delete_s(a.tasks, a.date, i),
        CommandV::Toggle(i) => toggle_s(a.tasks, a.date, i),
        CommandV::Quit => a.tasks,
        CommandV::Invalid => a.tasks,
    };
    let q = a.quit || parse_c(a.buffer) is Quit;
    AppV { mode: Mode::Normal, tasks: t1, date: a.date, secs: a.secs, buffer: Seq::empty(), quit: q }
}

/// Text-entry handling shared by the buffering modes: characters append to
/// the buffer, backspace drops the last character, enter executes the
/// buffered command, anything else is ignored.
pub open spec fn input_step(a: AppV, k: Key) -> AppV {
    match k {
        Key::Char(c) => with_buffer(a, a.buffer.push(c)),
        Key::Backspace => if a.buffer.len() > 0 {
            with_buffer(a, a.buffer.drop_last())
        } else {
            a
        },
        Key::Enter => run_command(a),
        _ => a,
    }
}

/// The full key-transition table of the mode state machine.
pub open spec fn key_step(a: AppV, k: Key) -> AppV {
    match a.mode {
        Mode::Normal => match k {
            Key::Char(c) => if c == 'm' {
                with_buffer(with_mode(a, Mode::Command), Seq::empty())
            } else if c == 'q' {
                with_quit(a)
            } else if c == 'f' {
                with_mode(a, Mode::Future)
            } else if c == 'i' {
                with_mode(a, Mode::Insert)
            } else if c == 'h' {
                with_date(a, minus_days(a.date, 7))
            } else if c == 'j' {
                with_date(a, next_date(a.date))
            } else if c == 'k' {
                with_date(a, prev_date(a.date))
            } else if c == 'l' {
                with_date(a, plus_days(a.date, 7))
            } else {
                a
            },
            _ => a,
        },
        Mode::Future => match k {
            Key::Esc => with_mode(a, Mode::Normal),
            Key::Char(c) => if c == 'q' {
                with_quit(a)
            } else {
                input_step(a, k)
            },
            _ => input_step(a, k),
        },
        Mode::Command => match k {
            Key::Esc => with_mode(a, Mode::Normal),
            _ => input_step(a, k),
        },
        Mode::Insert => match k {
            Key::Esc => with_mode(a, Mode::Normal),
            _ => input_step(a, k),
        },
        Mode::Plan => a,
        Mode::Reflect => a,
    }
}

/// The machine-width bound a navigation key needs: stepping may not run the
/// year past what an `i64` holds. Every calendar date away from the very
/// ends of that range satisfies it.
pub open spec fn nav_ok(a: AppV, k: Key) -> bool {
    a.mode is Normal ==> match k {
        Key::Char(c) => if c == 'j' {
            !(a.date.y == i64::MAX && a.date.m == 12 && a.date.d == 31)
        } else if c == 'k' {
            !(a.date.y == i64::MIN && a.date.m == 1 && a.date.d == 1)
        } else if c == 'l' {
            !(a.date.y == i64::MAX && a.date.m == 12 && a.date.d >= 25)
        } else if c == 'h' {
            !(a.date.y == i64::MIN && a.date.m == 1 && a.date.d <= 7)
        } else {
            true
        },
        _ => true,
    }
}

/// Within a week forward of a date that the `l`-key bound admits, no
/// intermediate day is the last representable one.
proof fn lemma_week_window_fwd(d: DateV, k: nat)
    requires
        valid_date(d),
        d.y <= i64::MAX,
        k < 7,
        !(d.y == i64::MAX && d.m == 12 && d.d >= 25),
    ensures
        valid_date(plus_days(d, k)),
        !(plus_days(d, k).y == i64::MAX && plus_days(d, k).m == 12 && plus_days(d, k).d == 31),
        plus_days(d, k).y < i64::MAX || plus_days(d, k).m < 12 || plus_days(d, k).d <= 24 + k,
    decreases k,
{
    crate::date::lemma_plus_days_valid(d, k);
    if k > 0 {
        lemma_week_window_fwd(d, (k - 1) as nat);
        crate::date::lemma_plus_days_valid(d, (k - 1) as nat);
        assert(plus_days(d, k) == next_date(plus_days(d, (k - 1) as nat)));
    }
}

/// Within a week backward of a date that the `h`-key bound admits, no
/// intermediate day is the first representable one.
proof fn lemma_week_window_back(d: DateV, k: nat)
    requires
        valid_date(d),
        d.y >= i64::MIN,
        k < 7,
        !(d.y == i64::MIN && d.m == 1 && d.d <= 7),
    ensures
        valid_date(minus_days(d, k)),
        !(minus_days(d, k).y == i64::MIN && minus_days(d, k).m == 1 && minus_days(d, k).d == 1),
        minus_days(d, k).y > i64::MIN || minus_days(d, k).m > 1 || minus_days(d, k).d >= 8 - k,
    decreases k,
{
    crate::date::lemma_minus_days_valid(d, k);
    if k > 0 {
        lemma_week_window_back(d, (k - 1) as nat);
        crate::date::lemma_minus_days_valid(d, (k - 1) as nat);
        assert(minus_days(d, k) == prev_date(minus_days(d, (k - 1) as nat)));
    }
}

/// Relies on chrono::Local::now for the current local date and time of
/// day: a chrono `DateTime` always carries a well-formed proleptic
/// Gregorian calendar date whose year chrono bounds far inside `i64`, and
/// its seconds from midnight are below 86400.
#[verifier::external_body]
fn now_parts() -> (r: (i64, u8, u8, u32))
    ensures
        valid_date(DateV { y: r.0 as int, m: r.1 as int, d: r.2 as int }),
        -262143 <= r.0 <= 262143,
        r.3 < 86400,
{
    let now = chrono::Local::now();
    let date = now.date_naive();
    let time = now.time();
    (
        chrono::Datelike::year(&date) as i64,
        chrono::Datelike::month(&date) as u8,
        chrono::Datelike::day(&date) as u8,
        chrono::Timelike::num_seconds_from_midnight(&time),
    )
}

impl App {
    pub open spec fn wf(&self) -> bool {
        app_wf(self@)
    }

    /// The initial state at a given cursor position: Normal mode, an empty
    /// buffer, the terminate flag down, and the store holding one sample
    /// task filed under the cursor's date.
    pub fn at(date: Date, secs: u32) -> (a: App)
        requires
            valid_date(date@),
            secs < 86400,
        ensures
            a@ == (AppV {
                mode: Mode::Normal,
                tasks: seq![
                    EntryV {
                        date: date@,
                        tasks: seq![
                            crate::store::new_task(
                                seq!['l', 'a', 'l', 'a', 'l', 'a', 'l'],
                                TaskType::Todo,
                            ),
                        ],
                    },
                ],
                date: date@,
                secs: secs,
                buffer: Seq::empty(),
                quit: false,
            }),
            a.wf(),
    {
        let mut tasks = TaskStore::empty();
        let mut content: Vec<char> = Vec::new();
        content.push('l');
        content.push('a');
        content.push('l');
        content.push('a');
        content.push('l');
        content.push('a');
        content.push('l');
        proof {
            assert(content@ =~= seq!['l', 'a', 'l', 'a', 'l', 'a', 'l']);
        }
        tasks.add(date, content, TaskType::Todo);
        let a = App {
            mode: Mode::Normal,
            tasks,
            current_date: Cursor { date, secs },
            input_buffer: Vec::new(),
            should_quit: false,
        };
        proof {
            assert(a@.tasks =~~= seq![
                EntryV {
                    date: date@,
                    tasks: seq![
                        crate::store::new_task(
                            seq!['l', 'a', 'l', 'a', 'l', 'a', 'l'],
                            TaskType::Todo,
                        ),
                    ],
                },
            ]);
            assert(a@ =~~= (AppV {
                mode: Mode::Normal,
                tasks: a@.tasks,
                date: date@,
                secs: secs,
                buffer: Seq::empty(),
                quit: false,
            }));
        }
        a
    }

    /// The initial state at the present moment.
    pub fn new() -> (a: App)
        ensures
            a@.mode == Mode::Normal,
            a@.buffer == Seq::<char>::empty(),
            !a@.quit,
            a@.tasks == seq![
                EntryV {
                    date: a@.date,
                    tasks: seq![
                        crate::store::new_task(
                            seq!['l', 'a', 'l', 'a', 'l', 'a', 'l'],
                            TaskType::Todo,
                        ),
                    ],
                },
            ],
            -262143 <= a@.date.y <= 262143,
            a.wf(),
    {
        let parts = now_parts();
        let date = Date { year: parts.0, month: parts.1, day: parts.2 };
        App::at(date, parts.3)
    }

    /// Files a new task with the given content and kind under `date`.
    pub fn add_task(&mut self, content: Vec<char>, task_type: TaskType, date: Date)
        requires
            old(self).wf(),
            valid_date(date@),
        ensures
            final(self)@ == with_tasks(old(self)@, add_s(old(self)@.tasks, date@, content@, task_type)),
            final(self).wf(),
    {
        let ghost pre = self@;
        self.tasks.add(date, content, task_type);
        proof {
            assert(self@ =~~= with_tasks(pre, self@.tasks));
        }
    }

    /// Flips the completion flag of the task at `index` under `date`;
    /// silently a no-op on a stale date or index.
    pub fn toggle_task(&mut self, date: Date, index: usize)
        requires
            old(self).wf(),
        ensures
            final(self)@ == with_tasks(old(self)@, toggle_s(old(self)@.tasks, date@, index as int)),
            final(self).wf(),
    {
        let ghost pre = self@;
        self.tasks.toggle(date, index);
        proof {
            assert(self@ =~~= with_tasks(pre, self@.tasks));
        }
    }

    /// Moves the cursor one calendar day forward; the time of day rides
    /// along unchanged.
    pub fn next_day(&mut self)
        requires
            old(self).wf(),
            !(old(self)@.date.y == i64::MAX && old(self)@.date.m == 12 && old(self)@.date.d == 31),
        ensures
            final(self)@ == with_date(old(self)@, next_date(old(self)@.date)),
            final(self).wf(),
    {
        let ghost pre = self@;
        self.current_date.date = self.current_date.date.succ();
        proof {
            assert(self@ =~~= with_date(pre, next_date(pre.date)));
        }
    }

    /// Moves the cursor one calendar day back.
    pub fn prev_day(&mut self)
        requires
            old(self).wf(),
            !(old(self)@.date.y == i64::MIN && old(self)@.date.m == 1 && old(self)@.date.d == 1),
        ensures
            final(self)@ == with_date(old(self)@, prev_date(old(self)@.date)),
            final(self).wf(),
    {
        let ghost pre = self@;
        self.current_date.date = self.current_date.date.pred();
        proof {
            assert(self@ =~~= with_date(pre, prev_date(pre.date)));
        }
    }

    /// Moves the cursor seven calendar days forward.
    pub fn next_week(&mut self)
        requires
            old(self).wf(),
            !(old(self)@.date.y == i64::MAX && old(self)@.date.m == 12 && old(self)@.date.d >= 25),
        ensures
            final(self)@ == with_date(old(self)@, plus_days(old(self)@.date, 7)),
            final(self).wf(),
    {
        let ghost pre = self@;
        let mut dt = self.current_date.date;
        let mut step: usize = 0;
        while step < 7
            invariant
                step <= 7,
                valid_date(pre.date),
                pre.date.y <= i64::MAX,
                !(pre.date.y == i64::MAX && pre.date.m == 12 && pre.date.d >= 25),
                dt@ == plus_days(pre.date, step as nat),
                dt.wf(),
            decreases 7 - step,
        {
            proof {
                lemma_week_window_fwd(pre.date, step as nat);
            }
            dt = dt.succ();
            step += 1;
        }
        self.current_date.date = dt;
        proof {
            assert(self@ =~~= with_date(pre, plus_days(pre.date, 7)));
        }
    }

    /// Moves the cursor seven calendar days back.
    pub fn prev_week(&mut self)
        requires
            old(self).wf(),
            !(old(self)@.date.y == i64::MIN && old(self)@.date.m == 1 && old(self)@.date.d <= 7),
        ensures
            final(self)@ == with_date(old(self)@, minus_days(old(self)@.date, 7)),
            final(self).wf(),
    {
        let ghost pre = self@;
        let mut dt = self.current_date.date;
        let mut step: usize = 0;
        while step < 7
            invariant
                step <= 7,
                valid_date(pre.date),
                pre.date.y >= i64::MIN,
                !(pre.date.y == i64::MIN && pre.date.m == 1 && pre.date.d <= 7),
                dt@ == minus_days(pre.date, step as nat),
                dt.wf(),
            decreases 7 - step,
        {
            proof {
                lemma_week_window_back(pre.date, step as nat);
            }
            dt = dt.pred();
            step += 1;
        }
        self.current_date.date = dt;
        proof {
            assert(self@ =~~= with_date(pre, minus_days(pre.date, 7)));
        }
    }

    /// Parses the input buffer into a command, without touching any state.
    pub fn parse_command(&self) -> (c: Command)
        ensures
            c@ == parse_c(self@.buffer),
    {
        parse_buffer(&self.input_buffer)
    }

    /// Applies the buffered command and performs the unconditional cleanup:
    /// clear the buffer, return to Normal mode.
    fn execute_command(&mut self)
        requires
            old(self).wf(),
        ensures
            final(self)@ == run_command(old(self)@),
            final(self).wf(),
    {
        let ghost pre = self@;
        let command = parse_buffer(&self.input_buffer);
        match command {
            Command::AddTask(content) => {
                let date = self.current_date.date;
                self.tasks.add(date, content, TaskType::Todo);
            },
            Command::DeleteTask(index) => {
                let date = self.current_date.date;
                self.tasks.delete(date, index);
            },
            Command::Toggle(index) => {
                let date = self.current_date.date;
                self.tasks.toggle(date, index);
            },
            Command::Quit => {
                self.should_quit = true;
            },
            Command::Invalid => {
            },
        }
        self.input_buffer = Vec::new();
        self.mode = Mode::Normal;
        proof {
            assert(self@ =~~= run_command(pre));
        }
    }

    /// Text-entry handling for the buffering modes, exactly `input_step`.
    pub fn handle_input(&mut self, key: Key)
        requires
            old(self).wf(),
        ensures
            final(self)@ == input_step(old(self)@, key),
            final(self).wf(),
    {
        let ghost pre = self@;
        match key {
            Key::Char(c) => {
                self.input_buffer.push(c);
                proof {
                    assert(self@ =~~= input_step(pre, key));
                }
            },
            Key::Backspace => {
                if self.input_buffer.len() > 0 {
                    self.input_buffer.pop();
                }
                proof {
                    assert(self@ =~~= input_step(pre, key));
                }
            },
            Key::Enter => {
                self.execute_command();
            },
            Key::Esc => {
            },
            Key::Other => {
            },
        }
    }

    /// Consumes one key event according to the full transition table.
    pub fn handle_key(&mut self, key: Key)
        requires
            old(self).wf(),
            nav_ok(old(self)@, key),
        ensures
            final(self)@ == key_step(old(self)@, key),
            final(self).wf(),
    {
        let ghost pre = self@;
        match self.mode {
            Mode::Normal => {
                match key {
                    Key::Char(c) => {
                        if c == 'm' {
                            self.mode = Mode::Command;
                            self.input_buffer = Vec::new();
                            proof {
                                assert(self@ =~~= key_step(pre, key));
                            }
                        } else if c == 'q' {
                            self.should_quit = true;
                        } else if c == 'f' {
                            self.mode = Mode::Future;
                        } else if c == 'i' {
                            self.mode = Mode::Insert;
                        } else if c == 'h' {
                            self.prev_week();
                        } else if c == 'j' {
                            self.next_day();
                        } else if c == 'k' {
                            self.prev_day();
                        } else if c == 'l' {
                            self.next_week();
                        }
                    },
                    _ => {
                    },
                }
            },
            Mode::Future => {
                match key {
                    Key::Esc => {
                        self.mode = Mode::Normal;
                    },
                    Key::Char(c) => {
                        if c == 'q' {
                            self.should_quit = true;
                        } else {
                            self.handle_input(key);
                        }
                    },
                    _ => {
                        self.handle_input(key);
                    },
                }
            },
            Mode::Command => {
                match key {
                    Key::Esc => {
                        self.mode = Mode::Normal;
                    },
                    _ => {
                        self.handle_input(key);
                    },
                }
            },
            Mode::Insert => {
                match key {
                    Key::Esc => {
                        self.mode = Mode::Normal;
                    },
                    _ => {
                        self.handle_input(key);
                    },
                }
            },
            Mode::Plan => {
            },
            Mode::Reflect => {
            },
        }
        proof {
            assert(self@ =~~= key_step(pre, key));
        }
    }
}

} // verus!
