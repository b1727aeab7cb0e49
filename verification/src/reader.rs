//! The interpreter: a tape, a pointer, and the loop that carries out a program on them.

use vstd::prelude::*;
use vstd::slice::slice_subrange;
use std::sync::Arc;
use std::sync::atomic::AtomicBool;
use std::sync::atomic::Ordering;
use crate::chars::to_chars;
use crate::error::BrainfuckReaderError;
use crate::hooks::FnObserver;
use crate::hooks::FnProvider;
use crate::hooks::FnSink;
use crate::hooks::FnTraceSink;
use crate::hooks::InputProvider;
use crate::hooks::OutputSink;
use crate::hooks::TapeObserver;
use crate::hooks::TraceSink;
use crate::machine::Config;
use crate::machine::Fault;
use crate::machine::Answer;
use crate::machine::Step;
use crate::machine::Stop;
use crate::machine::event_at;
use crate::machine::execute;
use crate::machine::run;
use crate::machine::start;
use crate::machine::step;
use crate::machine::unfailing;
use crate::program::are_partners;
use crate::program::bracket_fault;
use crate::program::build_jump_table;
use crate::program::is_jump_table;
use crate::program::lemma_partner_unique;
use crate::trace::TraceAction;
use crate::trace::TraceRow;

verus! {

/// The number of cells of a tape made by [`BrainfuckReader::new`].
pub const DEFAULT_TAPE_SIZE: usize = 30000;

/// A ceiling on the number of steps, and a flag by which someone else can ask the run to stop.
#[derive(Clone)]
pub struct StepControl {
    pub max_steps: Option<usize>,
    pub cancel_flag: Arc<AtomicBool>,
}

impl StepControl {
    pub fn new(max_steps: Option<usize>, cancel_flag: Arc<AtomicBool>) -> (control: Self)
        ensures
            control.max_steps == max_steps,
            control.cancel_flag == cancel_flag,
    {
        Self { max_steps, cancel_flag }
    }

    /// The ceiling as a number: where none is set, the largest number of steps that can be
    /// counted.
    pub open spec fn ceiling(self) -> nat {
        match self.max_steps {
            Some(max) => max as nat,
            None => usize::MAX as nat,
        }
    }

    /// Whether the flag is set at this moment.
    fn cancel_requested(&self) -> bool {
        self.cancel_flag.load(Ordering::Relaxed)
    }
}

/// The ceiling that a run under `control` observes.
pub open spec fn ceiling_of(control: Option<&StepControl>) -> nat {
    match control {
        Some(c) => c.ceiling(),
        None => usize::MAX as nat,
    }
}

/// `res` reports the way `stop` in which a run with ceiling `limit` ended.
pub open spec fn reports(res: Result<(), BrainfuckReaderError>, stop: Stop, limit: nat) -> bool {
    match stop {
        Stop::Halted => res is Ok,
        Stop::Unmatched { ip, kind } => res matches Err(
            BrainfuckReaderError::UnmatchedBrackets { ip: at, kind: side },
        ) && at == ip && side == kind,
        Stop::Faulted(Fault::PointerOutOfBounds { ip, ptr, op }) => res matches Err(
            BrainfuckReaderError::PointerOutOfBounds { ip: at, ptr: cell, op: instr },
        ) && at == ip && cell == ptr && instr == op,
        Stop::Faulted(Fault::InvalidCharacter { ch, ip }) => res matches Err(
            BrainfuckReaderError::InvalidCharacter { ch: found, ip: at },
        ) && found == ch && at == ip,
        Stop::Faulted(Fault::InputFailed { ip }) => res matches Err(
            BrainfuckReaderError::IoError { ip: at, .. },
        ) && at == ip,
        Stop::Faulted(Fault::OutputFailed { ip }) => res matches Err(
            BrainfuckReaderError::IoError { ip: at, .. },
        ) && at == ip,
        Stop::StepLimit => res matches Err(BrainfuckReaderError::StepLimitExceeded { limit: max })
            && max == limit,
    }
}

/// `events` holds these answers in front and may go on in any way.
pub open spec fn agrees(events: Seq<Answer>, record: Seq<Answer>) -> bool {
    forall|i: int| 0 <= i < record.len() ==> event_at(events, i) == #[trigger] record[i]
}

/// After the steps recorded in `record` a run from `origin` stands at `now`, whatever is
/// allowed and whatever is answered later.
pub open spec fn on_track(
    code: Seq<char>,
    debug: bool,
    origin: Config,
    record: Seq<Answer>,
    now: Config,
) -> bool {
    forall|fuel: nat, events: Seq<Answer>|
        fuel >= record.len() && agrees(events, record) ==> #[trigger] run(
            code,
            origin,
            debug,
            fuel,
            events,
            0,
        ) == run(code, now, debug, (fuel - record.len()) as nat, events, record.len() as int)
}

proof fn lemma_on_track_step(
    code: Seq<char>,
    debug: bool,
    origin: Config,
    record: Seq<Answer>,
    now: Config,
    event: Answer,
    next: Config,
)
    requires
        on_track(code, debug, origin, record, now),
        0 <= now.ip < code.len(),
        step(code, now, debug, event, record.len() as int) == Step::Next(next),
    ensures
        on_track(code, debug, origin, record.push(event), next),
{
    let longer = record.push(event);
    assert forall|fuel: nat, events: Seq<Answer>|
        fuel >= longer.len() && agrees(events, longer) implies #[trigger] run(
        code,
        origin,
        debug,
        fuel,
        events,
        0,
    ) == run(code, next, debug, (fuel - longer.len()) as nat, events, longer.len() as int) by {
        assert forall|i: int| 0 <= i < record.len() implies event_at(events, i)
            == #[trigger] record[i] by {
            assert(longer[i] == record[i]);
        }
        assert(agrees(events, record));
        assert(longer[record.len() as int] == event);
        assert(event_at(events, record.len() as int) == event);
    }
}

/// Two records that answer alike at every step that is allowed give the same run.
pub proof fn lemma_run_same_answers(
    code: Seq<char>,
    c: Config,
    debug: bool,
    fuel: nat,
    first: Seq<Answer>,
    second: Seq<Answer>,
    k: int,
)
    requires
        forall|i: int| k <= i < k + fuel ==> event_at(first, i) == event_at(second, i),
    ensures
        run(code, c, debug, fuel, first, k) == run(code, c, debug, fuel, second, k),
    decreases fuel,
{
    if c.ip < code.len() && fuel > 0 {
        assert(event_at(first, k) == event_at(second, k));
        match step(code, c, debug, event_at(first, k), k) {
            Step::Next(next) => {
                lemma_run_same_answers(code, next, debug, (fuel - 1) as nat, first, second, k + 1);
            },
            Step::Fault(_) => {},
        }
    }
}

/// `shown` holds what an observer with windows of width `width` is shown after each of its
/// first steps by the run from `origin` under `record`.
pub open spec fn shows(
    code: Seq<char>,
    debug: bool,
    origin: Config,
    record: Seq<Answer>,
    shown: Seq<Observation>,
    width: nat,
) -> bool {
    forall|i: int|
        0 <= i < shown.len() ==> #[trigger] shown[i] == observation(
            run(code, origin, debug, (i + 1) as nat, record, 0).config,
            width,
        )
}

proof fn lemma_shows_longer(
    code: Seq<char>,
    debug: bool,
    origin: Config,
    record: Seq<Answer>,
    shown: Seq<Observation>,
    width: nat,
    event: Answer,
    next: Config,
    observed: bool,
)
    requires
        on_track(code, debug, origin, record.push(event), next),
        shows(code, debug, origin, record, shown, width),
        shown.len() <= record.len(),
        observed ==> shown.len() == record.len(),
    ensures
        shows(
            code,
            debug,
            origin,
            record.push(event),
            if observed {
                shown.push(observation(next, width))
            } else {
                shown
            },
            width,
        ),
{
    let longer = record.push(event);
    let more = if observed {
        shown.push(observation(next, width))
    } else {
        shown
    };
    assert forall|i: int| 0 <= i < more.len() implies #[trigger] more[i] == observation(
        run(code, origin, debug, (i + 1) as nat, longer, 0).config,
        width,
    ) by {
        if i < shown.len() {
            assert forall|j: int| 0 <= j < 0 + (i + 1) implies event_at(record, j) == event_at(
                longer,
                j,
            ) by {
                assert(longer[j] == record[j]);
            }
            lemma_run_same_answers(code, origin, debug, (i + 1) as nat, record, longer, 0);
            assert(more[i] == shown[i]);
        } else {
            assert(agrees(longer, longer));
            assert(run(code, origin, debug, longer.len(), longer, 0) == run(
                code,
                next,
                debug,
                0,
                longer,
                longer.len() as int,
            ));
        }
    }
}

/// What a tape observer is shown after an instruction.
pub struct Observation {
    /// The index of the current cell.
    pub ptr: int,
    /// The index of the first cell of the window.
    pub base: int,
    /// The cells of the window.
    pub window: Seq<u8>,
}

/// What an observer with windows of the given width is shown of `c`: the window that holds
/// the current cell; windows start at the multiples of their width and end with the tape.
pub open spec fn observation(c: Config, width: nat) -> Observation {
    let base = window_base(c.ptr, width as int);
    Observation {
        ptr: c.ptr,
        base,
        window: c.tape.subrange(base, window_end(base, width as int, c.tape.len() as int)),
    }
}

/// Which hooks a reader has.
pub struct Installed {
    /// An output sink is installed.
    pub sink: bool,
    /// An input provider is installed.
    pub provider: bool,
    /// A tape observer is installed.
    pub observer: bool,
    /// The width of the window that the tape observer is shown; zero without an observer.
    pub window: nat,
    /// A trace sink is installed.
    pub trace_sink: bool,
}

/// An interpreter with its tape.
///
/// The reader keeps the program text, the cells and the pointer; the cells and the pointer
/// survive from one run to the next. It also keeps what its last run produced and no sink
/// took: the bytes that were emitted, and the rows of the trace if it was a debug run.
pub struct BrainfuckReader {
    code: String,
    memory: Vec<u8>,
    pointer: usize,
    output_sink: Option<Box<dyn OutputSink>>,
    input_provider: Option<Box<dyn InputProvider>>,
    tape_observer: Option<(usize, Box<dyn TapeObserver>)>,
    trace_sink: Option<Box<dyn TraceSink>>,
    output: Vec<u8>,
    trace: Vec<TraceRow>,
    emitted: Ghost<Seq<u8>>,
    traced: Ghost<Seq<TraceRow>>,
    shown: Ghost<Seq<Observation>>,
    events: Ghost<Seq<Answer>>,
}

impl BrainfuckReader {
    /// The pointer is on the tape, and the observer's window is not empty.
    pub closed spec fn wf(self) -> bool {
        &&& self.pointer < self.memory@.len()
        &&& self.tape_observer matches Some((window, _)) ==> window >= 1
    }

    /// Which hooks are installed.
    pub closed spec fn installed(self) -> Installed {
        Installed {
            sink: self.output_sink is Some,
            provider: self.input_provider is Some,
            observer: self.tape_observer is Some,
            window: match self.tape_observer {
                Some((window, _)) => window as nat,
                None => 0,
            },
            trace_sink: self.trace_sink is Some,
        }
    }

    /// The program text.
    pub closed spec fn program(self) -> Seq<char> {
        self.code@
    }

    /// The cells.
    pub closed spec fn tape(self) -> Seq<u8> {
        self.memory@
    }

    /// The index of the current cell.
    pub closed spec fn ptr(self) -> int {
        self.pointer as int
    }

    /// The bytes the last run emitted while no sink was installed.
    pub closed spec fn buffered(self) -> Seq<u8> {
        self.output@
    }

    /// The rows the last run traced while no trace sink was installed.
    pub closed spec fn trace_rows(self) -> Seq<TraceRow> {
        self.trace@
    }

    /// Every byte the last run emitted, in order, whoever took it.
    pub closed spec fn emitted(self) -> Seq<u8> {
        self.emitted@
    }

    /// Every row the last run traced, in order, whoever took it.
    pub closed spec fn traced(self) -> Seq<TraceRow> {
        self.traced@
    }

    /// What the tape observer was shown by the last run, in order.
    pub closed spec fn shown(self) -> Seq<Observation> {
        self.shown@
    }

    /// What the last run was answered at each step it completed: by the provider where `,`
    /// asked for a byte, and `Nothing` where nobody was asked or the sink took its byte.
    pub closed spec fn answers(self) -> Seq<Answer> {
        self.events@
    }

    /// An output sink is installed.
    pub open spec fn has_sink(self) -> bool {
        self.installed().sink
    }

    /// An input provider is installed.
    pub open spec fn has_provider(self) -> bool {
        self.installed().provider
    }

    /// A tape observer is installed.
    pub open spec fn has_observer(self) -> bool {
        self.installed().observer
    }

    /// A trace sink is installed.
    pub open spec fn has_trace_sink(self) -> bool {
        self.installed().trace_sink
    }

    /// The width of the window that the tape observer is shown.
    pub open spec fn observer_window(self) -> nat {
        self.installed().window
    }

    /// The machine is as it was when the reader was made, whatever the program is.
    pub open spec fn is_fresh(self, cells: nat) -> bool {
        &&& self.tape() == Seq::new(cells, |i: int| 0u8)
        &&& self.ptr() == 0
        &&& self.buffered() == Seq::<u8>::empty()
        &&& self.trace_rows() == Seq::<TraceRow>::empty()
        &&& self.installed() == Installed {
            sink: false,
            provider: false,
            observer: false,
            window: 0,
            trace_sink: false,
        }
    }

    /// Only the hooks may differ between `self` and `other`.
    pub open spec fn same_machine(self, other: Self) -> bool {
        &&& self.program() == other.program()
        &&& self.tape() == other.tape()
        &&& self.ptr() == other.ptr()
        &&& self.buffered() == other.buffered()
        &&& self.trace_rows() == other.trace_rows()
        &&& self.emitted() == other.emitted()
        &&& self.traced() == other.traced()
        &&& self.shown() == other.shown()
        &&& self.answers() == other.answers()
    }

    spec fn config_at(self, ip: int) -> Config {
        Config {
            ip,
            ptr: self.pointer as int,
            tape: self.memory@,
            out: self.emitted@,
            trace: self.traced@,
        }
    }

    spec fn same_hooks(self, other: Self) -> bool {
        &&& self.output_sink == other.output_sink
        &&& self.input_provider == other.input_provider
        &&& self.tape_observer == other.tape_observer
        &&& self.trace_sink == other.trace_sink
        &&& self.code == other.code
    }

    /// Create a new interpreter for `code` with a tape of 30,000 zeroed cells.
    pub fn new(code: String) -> (reader: Self)
        ensures
            reader.wf(),
            reader.program() == code@,
            reader.is_fresh(DEFAULT_TAPE_SIZE as nat),
    {
        Self::new_with_memory(code, DEFAULT_TAPE_SIZE)
    }

    /// Create a new interpreter for `code` with a tape of `memory_size` zeroed cells.
    pub fn new_with_memory(code: String, memory_size: usize) -> (reader: Self)
        requires
            memory_size >= 1,
        ensures
            reader.wf(),
            reader.program() == code@,
            reader.is_fresh(memory_size as nat),
    {
        let memory = vec![0u8; memory_size];
        assert(memory@ =~= Seq::new(memory_size as nat, |i: int| 0u8));
        Self {
            code,
            memory,
            pointer: 0,
            output_sink: None,
            input_provider: None,
            tape_observer: None,
            trace_sink: None,
            output: Vec::new(),
            trace: Vec::new(),
            emitted: Ghost(Seq::empty()),
            traced: Ghost(Seq::empty()),
            shown: Ghost(Seq::empty()),
            events: Ghost(Seq::empty()),
        }
    }

    /// Provide an output sink. When set, `.` sends its byte to this sink, as a slice of one
    /// byte, and the reader keeps no copy.
    pub fn set_output_sink<F>(&mut self, sink: F) where F: Fn(&[u8]) + Send + Sync + 'static
        requires
            old(self).wf(),
            forall|bytes: &[u8]| call_requires(sink, (bytes,)),
        ensures
            final(self).wf(),
            final(self).same_machine(*old(self)),
            final(self).installed() == (Installed { sink: true, ..old(self).installed() }),
    {
        self.output_sink = Some(Box::new(FnSink::new(sink)));
    }

    /// Provide an input provider. When set, `,` asks this provider for its byte; `None` is the
    /// end of the input and clears the cell.
    pub fn set_input_provider<F>(&mut self, provider: F) where
        F: Fn() -> Option<u8> + Send + Sync + 'static,

        requires
            old(self).wf(),
            call_requires(provider, ()),
        ensures
            final(self).wf(),
            final(self).same_machine(*old(self)),
            final(self).installed() == (Installed { provider: true, ..old(self).installed() }),
    {
        self.input_provider = Some(Box::new(FnProvider::new(provider)));
    }

    /// Provide a tape observer and the width of the window it is shown; a width of zero counts
    /// as one.
    pub fn set_tape_observer<F>(&mut self, window_size: usize, observer: F) where
        F: Fn(usize, usize, &[u8]) + Send + Sync + 'static,

        requires
            old(self).wf(),
            forall|ptr: usize, base: usize, window: &[u8]|
                call_requires(observer, (ptr, base, window)),
        ensures
            final(self).wf(),
            final(self).same_machine(*old(self)),
            final(self).installed() == (Installed {
                observer: true,
                window: if window_size == 0 {
                    1nat
                } else {
                    window_size as nat
                },
                ..old(self).installed()
            }),
    {
        let window = if window_size == 0 {
            1
        } else {
            window_size
        };
        self.tape_observer = Some((window, Box::new(FnObserver::new(observer))));
    }

    /// Provide a trace sink. When set, a debug run hands every row to this sink as soon as
    /// its instruction is completed, and the reader keeps no copy.
    pub fn set_trace_sink<F>(&mut self, sink: F) where F: Fn(&TraceRow) + Send + Sync + 'static
        requires
            old(self).wf(),
            forall|row: &TraceRow| call_requires(sink, (row,)),
        ensures
            final(self).wf(),
            final(self).same_machine(*old(self)),
            final(self).installed() == (Installed { trace_sink: true, ..old(self).installed() }),
    {
        self.trace_sink = Some(Box::new(FnTraceSink::new(sink)));
    }

    /// Install an output sink of any kind.
    pub fn install_output_sink(&mut self, sink: Box<dyn OutputSink>)
        requires
            old(self).wf(),
        ensures
            final(self).wf(),
            final(self).same_machine(*old(self)),
            final(self).installed() == (Installed { sink: true, ..old(self).installed() }),
    {
        self.output_sink = Some(sink);
    }

    /// Install an input provider of any kind, one that can fail too.
    pub fn install_input_provider(&mut self, provider: Box<dyn InputProvider>)
        requires
            old(self).wf(),
        ensures
            final(self).wf(),
            final(self).same_machine(*old(self)),
            final(self).installed() == (Installed { provider: true, ..old(self).installed() }),
    {
        self.input_provider = Some(provider);
    }

    /// The cells.
    pub fn memory(&self) -> (cells: &Vec<u8>)
        ensures
            cells@ == self.tape(),
    {
        &self.memory
    }

    /// The index of the current cell.
    pub fn pointer(&self) -> (index: usize)
        requires
            self.wf(),
        ensures
            index == self.ptr(),
            index < self.tape().len(),
    {
        self.pointer
    }

    /// The program text.
    pub fn code(&self) -> (text: &str)
        ensures
            text@ == self.program(),
    {
        self.code.as_str()
    }

    /// The bytes the last run emitted while no sink was installed.
    pub fn output(&self) -> (bytes: &Vec<u8>)
        ensures
            bytes@ == self.buffered(),
    {
        &self.output
    }

    /// The rows the last run traced while no trace sink was installed: one for each
    /// instruction a debug run completed.
    pub fn trace(&self) -> (rows: &Vec<TraceRow>)
        ensures
            rows@ == self.trace_rows(),
    {
        &self.trace
    }
}

/// What the machine is answered when the provider hands over `input`.
pub open spec fn event_of(input: Option<u8>) -> Answer {
    match input {
        Some(byte) => Answer::Byte(byte),
        None => Answer::Nothing,
    }
}

/// The first cell of the window of width `window` that holds cell `ptr`: windows start at the
/// multiples of their width.
pub open spec fn window_base(ptr: int, window: int) -> int {
    ptr - ptr % window
}

/// The end of the window that starts at `base`, cut off at the end of a tape of `cells` cells.
pub open spec fn window_end(base: int, window: int, cells: int) -> int {
    if base + window <= cells {
        base + window
    } else {
        cells
    }
}

impl BrainfuckReader {
    /// What the reader has buffered is what was emitted while no sink is installed, and
    /// nothing while one is.
    spec fn buffer_in_step(self) -> bool {
        &&& self.output@ == if self.output_sink is Some {
            Seq::<u8>::empty()
        } else {
            self.emitted@
        }
        &&& self.trace@ == if self.trace_sink is Some {
            Seq::<TraceRow>::empty()
        } else {
            self.traced@
        }
    }

    /// The state that a fault leaves untouched.
    spec fn same_state(self, other: Self) -> bool {
        &&& self.same_hooks(other)
        &&& self.memory == other.memory
        &&& self.pointer == other.pointer
        &&& self.output == other.output
        &&& self.trace == other.trace
        &&& self.emitted == other.emitted
        &&& self.traced == other.traced
        &&& self.shown == other.shown
        &&& self.events == other.events
    }

    /// What a run leaves behind.
    ///
    /// `self` is the reader after a run that began at `before`, was allowed `limit` steps and
    /// returned `res`. The run is the one that the machine makes on the program from the tape
    /// and pointer of `before` under the answers recorded in `self`, with a failed answer
    /// behind them if the run ended on one; the reader holds its last configuration. A run
    /// that was cancelled stands where a ceiling at the number of its completed steps would
    /// have stopped it. The observer, if there is one, was shown the machine after each
    /// completed step.
    pub open spec fn ran(
        self,
        before: Self,
        debug: bool,
        limit: nat,
        cancelable: bool,
        res: Result<(), BrainfuckReaderError>,
    ) -> bool {
        let canceled = res matches Err(BrainfuckReaderError::Canceled);
        let fuel = if canceled {
            self.answers().len()
        } else {
            limit
        };
        let record = if res matches Err(BrainfuckReaderError::IoError { .. }) {
            self.answers().push(Answer::Failed)
        } else {
            self.answers()
        };
        let outcome = execute(before.program(), before.tape(), before.ptr(), debug, fuel, record);
        &&& self.wf()
        &&& self.program() == before.program()
        &&& self.installed() == before.installed()
        &&& self.tape() == outcome.config.tape
        &&& self.ptr() == outcome.config.ptr
        &&& self.emitted() == outcome.config.out
        &&& self.traced() == outcome.config.trace
        &&& self.trace_rows() == if before.has_trace_sink() {
            Seq::<TraceRow>::empty()
        } else {
            outcome.config.trace
        }
        &&& self.buffered() == if before.has_sink() {
            Seq::<u8>::empty()
        } else {
            outcome.config.out
        }
        &&& if canceled {
            cancelable && outcome.stop is StepLimit
        } else {
            reports(res, outcome.stop, limit)
        }
        &&& res matches Err(BrainfuckReaderError::IoError { .. }) ==> !debug && (before.has_sink()
            || before.has_provider())
        &&& unfailing(self.answers())
        &&& (debug || !before.has_provider()) ==> forall|k: int|
            event_at(self.answers(), k) is Nothing
        &&& self.shown().len() == if before.has_observer() {
            self.answers().len()
        } else {
            0
        }
        &&& forall|i: int|
            0 <= i < self.shown().len() ==> #[trigger] self.shown()[i] == observation(
                execute(
                    before.program(),
                    before.tape(),
                    before.ptr(),
                    debug,
                    (i + 1) as nat,
                    self.answers(),
                ).config,
                before.observer_window(),
            )
    }

    /// The part of the tape that the observer is shown: the window of the given width around
    /// the current cell.
    fn observed_window(&self, window: usize) -> (bounds: (usize, usize))
        requires
            self.wf(),
            window >= 1,
        ensures
            bounds.0 == window_base(self.ptr(), window as int),
            bounds.1 == window_end(bounds.0 as int, window as int, self.tape().len() as int),
            bounds.0 <= self.ptr() < bounds.1 <= self.tape().len(),
    {
        assert(0 <= self.pointer % window <= self.pointer && self.pointer % window < window)
            by (nonlinear_arith)
            requires
                window >= 1,
        ;
        let base = self.pointer - self.pointer % window;
        let cells = self.memory.len();
        let end = if window <= cells - base {
            base + window
        } else {
            cells
        };
        (base, end)
    }

    /// Shows the tape to the observer, if there is one.
    fn notify_observer(&mut self)
        requires
            old(self).wf(),
        ensures
            final(self).wf(),
            final(self).same_hooks(*old(self)),
            final(self).memory == old(self).memory,
            final(self).pointer == old(self).pointer,
            final(self).output == old(self).output,
            final(self).trace == old(self).trace,
            final(self).emitted == old(self).emitted,
            final(self).traced == old(self).traced,
            final(self).events == old(self).events,
            final(self).shown@ == if old(self).tape_observer is Some {
                old(self).shown@.push(
                    observation(old(self).config_at(0), old(self).installed().window),
                )
            } else {
                old(self).shown@
            },
    {
        match &self.tape_observer {
            Some((window, observer)) => {
                let (base, end) = self.observed_window(*window);
                let cells = slice_subrange(self.memory.as_slice(), base, end);
                observer.observe(self.pointer, base, cells);
                self.shown = Ghost(
                    self.shown@.push(
                        Observation { ptr: self.pointer as int, base: base as int, window: cells@ },
                    ),
                );
            },
            None => {},
        }
    }

    /// Emits one byte: to the sink if there is one, else into the reader's own buffer. Where
    /// the sink fails nothing is emitted.
    fn emit(&mut self, byte: u8) -> (res: Result<(), std::io::Error>)
        requires
            old(self).wf(),
            old(self).buffer_in_step(),
        ensures
            final(self).wf(),
            final(self).buffer_in_step(),
            final(self).same_hooks(*old(self)),
            final(self).memory == old(self).memory,
            final(self).pointer == old(self).pointer,
            final(self).trace == old(self).trace,
            final(self).traced == old(self).traced,
            final(self).shown == old(self).shown,
            final(self).events == old(self).events,
            res is Ok ==> final(self).emitted@ == old(self).emitted@.push(byte),
            res is Err ==> final(self).same_state(*old(self)) && old(self).output_sink is Some,
    {
        match &self.output_sink {
            Some(sink) => {
                let mut bytes: Vec<u8> = Vec::new();
                bytes.push(byte);
                match sink.send(bytes.as_slice()) {
                    Ok(()) => {},
                    Err(e) => {
                        return Err(e);
                    },
                }
            },
            None => {
                self.output.push(byte);
            },
        }
        self.emitted = Ghost(self.emitted@.push(byte));
        Ok(())
    }

    /// Carries out the instruction at `ip` as step number `step_no`; `input` is what the
    /// provider handed over, if the instruction asked for it.
    fn perform(
        &mut self,
        chars: &Vec<char>,
        table: &Vec<Option<usize>>,
        ip: usize,
        debug: bool,
        input: Option<u8>,
        step_no: usize,
    ) -> (res: Result<usize, BrainfuckReaderError>)
        requires
            ip < chars@.len(),
            is_jump_table(chars@, table@),
            old(self).wf(),
            old(self).buffer_in_step(),
        ensures
            final(self).wf(),
            final(self).buffer_in_step(),
            match res {
                Ok(next_ip) => {
                    &&& step(
                        chars@,
                        old(self).config_at(ip as int),
                        debug,
                        event_of(input),
                        step_no as int,
                    ) == Step::Next(final(self).config_at(next_ip as int))
                    &&& next_ip <= chars@.len()
                    &&& final(self).same_hooks(*old(self))
                    &&& final(self).events == old(self).events
                    &&& final(self).memory@.len() == old(self).memory@.len()
                    &&& final(self).shown@ == if old(self).tape_observer is Some {
                        old(self).shown@.push(
                            observation(
                                final(self).config_at(next_ip as int),
                                old(self).installed().window,
                            ),
                        )
                    } else {
                        old(self).shown@
                    }
                },
                Err(e) => {
                    &&& final(self).same_state(*old(self))
                    &&& if e is IoError {
                        &&& e matches BrainfuckReaderError::IoError { ip: at, .. } && at == ip
                        &&& chars@[ip as int] == '.'
                        &&& !debug
                        &&& old(self).output_sink is Some
                    } else {
                        step(
                            chars@,
                            old(self).config_at(ip as int),
                            debug,
                            event_of(input),
                            step_no as int,
                        ) matches Step::Fault(fault) && reports(Err(e), Stop::Faulted(fault), 0)
                    }
                },
            },
    {
        let code_len = chars.len();
        let instr = chars[ip];
        let ptr_before = self.pointer;
        let cell_before = self.memory[self.pointer];
        let mut last_ip = ip;
        let action: TraceAction;
        if instr == '>' {
            if self.pointer >= self.memory.len() - 1 {
                return Err(
                    BrainfuckReaderError::PointerOutOfBounds { ip, ptr: self.pointer, op: instr },
                );
            }
            self.pointer += 1;
            action = TraceAction::MovePointer { to: self.pointer };
        } else if instr == '<' {
            if self.pointer == 0 {
                return Err(
                    BrainfuckReaderError::PointerOutOfBounds { ip, ptr: self.pointer, op: instr },
                );
            }
            self.pointer -= 1;
            action = TraceAction::MovePointer { to: self.pointer };
        } else if instr == '+' {
            let after = cell_before.wrapping_add(1);
            self.memory.set(self.pointer, after);
            action = TraceAction::Increment { cell: ptr_before, before: cell_before, after };
        } else if instr == '-' {
            let after = cell_before.wrapping_sub(1);
            self.memory.set(self.pointer, after);
            action = TraceAction::Decrement { cell: ptr_before, before: cell_before, after };
        } else if instr == '.' {
            if !debug {
                match self.emit(cell_before) {
                    Ok(()) => {},
                    Err(source) => {
                        return Err(BrainfuckReaderError::IoError { ip, source });
                    },
                }
            }
            action = TraceAction::OutputSuppressed { byte: cell_before };
        } else if instr == ',' {
            if debug {
                self.memory.set(self.pointer, 0);
            } else {
                match input {
                    Some(byte) => {
                        self.memory.set(self.pointer, byte);
                    },
                    None => {
                        self.memory.set(self.pointer, 0);
                    },
                }
            }
            action = TraceAction::InputSimulatedEof;
        } else if instr == '[' || instr == ']' {
            assert(table@[ip as int] is Some);
            let target = table[ip].unwrap();
            proof {
                assert(are_partners(chars@, ip as int, target as int));
                lemma_partner_unique(chars@, ip as int, target as int, target as int);
            }
            if instr == '[' {
                if cell_before == 0 {
                    last_ip = target;
                    action = TraceAction::JumpForward { to: target };
                } else {
                    action = TraceAction::EnterLoop;
                }
            } else {
                if cell_before != 0 {
                    last_ip = target;
                    action = TraceAction::JumpBack { to: target };
                } else {
                    action = TraceAction::ExitLoop;
                }
            }
        } else {
            return Err(BrainfuckReaderError::InvalidCharacter { ch: instr, ip });
        }
        self.notify_observer();
        if debug {
            let row = TraceRow {
                step: step_no,
                ip: last_ip,
                ptr: ptr_before,
                cell: cell_before,
                instr,
                action,
            };
            match &self.trace_sink {
                Some(sink) => {
                    sink.record(&row);
                },
                None => {
                    self.trace.push(row);
                },
            }
            self.traced = Ghost(self.traced@.push(row));
        }
        Ok(last_ip + 1)
    }

    /// The observer has been shown the machine after each of the steps recorded.
    spec fn shown_in_step(self, code: Seq<char>, origin: Config, debug: bool) -> bool {
        &&& self.shown@.len() == if self.tape_observer is Some {
            self.events@.len()
        } else {
            0
        }
        &&& shows(code, debug, origin, self.events@, self.shown@, self.installed().window)
    }

    /// Internal executor shared by the four ways to run.
    ///
    /// Checks the brackets, then carries out one instruction per step until the program ends,
    /// an instruction faults, the ceiling is reached or the flag is seen set. The flag and the
    /// ceiling are looked at in front of every instruction, in that order.
    fn execute(&mut self, debug: bool, step_control: Option<&StepControl>) -> (res: Result<
        (),
        BrainfuckReaderError,
    >)
        requires
            old(self).wf(),
        ensures
            final(self).ran(*old(self), debug, ceiling_of(step_control), step_control is Some, res),
    {
        self.output.clear();
        self.trace.clear();
        self.emitted = Ghost(Seq::empty());
        self.traced = Ghost(Seq::empty());
        self.shown = Ghost(Seq::empty());
        self.events = Ghost(Seq::empty());
        let chars = to_chars(self.code.as_str());
        let table = match build_jump_table(&chars) {
            Ok(table) => table,
            Err(e) => {
                return Err(e);
            },
        };
        let limit: usize = match step_control {
            Some(control) => match control.max_steps {
                Some(max) => max,
                None => usize::MAX,
            },
            None => usize::MAX,
        };
        let code_len = chars.len();
        let mut ip: usize = 0;
        let mut steps: usize = 0;
        let ghost origin = self.config_at(0);
        assert(origin == start(old(self).tape(), old(self).ptr()));
        while ip < code_len
            invariant
                self.wf(),
                self.same_hooks(*old(self)),
                self.buffer_in_step(),
                chars@ == self.code@,
                code_len == chars@.len(),
                bracket_fault(chars@) is None,
                is_jump_table(chars@, table@),
                ip <= code_len,
                steps <= limit,
                limit == ceiling_of(step_control),
                self.events@.len() == steps,
                origin == start(old(self).tape(), old(self).ptr()),
                on_track(chars@, debug, origin, self.events@, self.config_at(ip as int)),
                (debug || self.input_provider is None) ==> forall|i: int|
                    0 <= i < self.events@.len() ==> self.events@[i] is Nothing,
                forall|i: int| 0 <= i < self.events@.len() ==> !(self.events@[i] is Failed),
                self.shown_in_step(chars@, origin, debug),
            decreases limit - steps,
        {
            if let Some(control) = step_control {
                if control.cancel_requested() {
                    proof {
                        assert(agrees(self.events@, self.events@));
                    }
                    return Err(BrainfuckReaderError::Canceled);
                }
            }
            if steps >= limit {
                proof {
                    assert(agrees(self.events@, self.events@));
                }
                return Err(BrainfuckReaderError::StepLimitExceeded { limit });
            }
            let instr = chars[ip];
            let mut input: Option<u8> = None;
            if instr == ',' && !debug {
                match &self.input_provider {
                    Some(provider) => match provider.read_byte() {
                        Ok(answer) => {
                            input = answer;
                        },
                        Err(source) => {
                            proof {
                                let failed = self.events@.push(Answer::Failed);
                                assert(agrees(failed, self.events@));
                            }
                            return Err(BrainfuckReaderError::IoError { ip, source });
                        },
                    },
                    None => {},
                }
            }
            let ghost now = self.config_at(ip as int);
            let ghost record = self.events@;
            let ghost shown = self.shown@;
            match self.perform(&chars, &table, ip, debug, input, steps) {
                Ok(next) => {
                    ip = next;
                },
                Err(e) => {
                    proof {
                        assert(agrees(record, record));
                        assert(agrees(record.push(Answer::Failed), record));
                    }
                    return Err(e);
                },
            }
            self.events = Ghost(self.events@.push(event_of(input)));
            proof {
                lemma_on_track_step(
                    chars@,
                    debug,
                    origin,
                    record,
                    now,
                    event_of(input),
                    self.config_at(ip as int),
                );
                lemma_shows_longer(
                    chars@,
                    debug,
                    origin,
                    record,
                    shown,
                    self.installed().window,
                    event_of(input),
                    self.config_at(ip as int),
                    self.tape_observer is Some,
                );
            }
            steps += 1;
        }
        proof {
            assert(agrees(self.events@, self.events@));
        }
        Ok(())
    }

    /// Execute the program until it ends.
    ///
    /// Without an output sink the emitted bytes are kept for [`BrainfuckReader::output`];
    /// without an input provider `,` finds the input at its end. No ceiling is set and nobody
    /// can cancel; only the step counter itself bounds the run, which ends with
    /// `StepLimitExceeded` where it would take more steps than can be counted.
    pub fn run(&mut self) -> (res: Result<(), BrainfuckReaderError>)
        requires
            old(self).wf(),
        ensures
            final(self).ran(*old(self), false, usize::MAX as nat, false, res),
    {
        self.execute(false, None)
    }

    /// Debug-run the program: the tape and the pointer advance exactly as in a real run, but
    /// `.` emits nothing and `,` reads nothing and clears the cell; every completed instruction
    /// leaves a row in the trace.
    pub fn run_debug(&mut self) -> (res: Result<(), BrainfuckReaderError>)
        requires
            old(self).wf(),
        ensures
            final(self).ran(*old(self), true, usize::MAX as nat, false, res),
    {
        self.execute(true, None)
    }

    /// Execute with cooperative cancellation and an optional step ceiling.
    pub fn run_with_control(&mut self, step_control: StepControl) -> (res: Result<
        (),
        BrainfuckReaderError,
    >)
        requires
            old(self).wf(),
        ensures
            final(self).ran(*old(self), false, step_control.ceiling(), true, res),
    {
        self.execute(false, Some(&step_control))
    }

    /// Debug-run with cooperative cancellation and an optional step ceiling.
    pub fn run_debug_with_control(&mut self, step_control: StepControl) -> (res: Result<
        (),
        BrainfuckReaderError,
    >)
        requires
            old(self).wf(),
        ensures
            final(self).ran(*old(self), true, step_control.ceiling(), true, res),
    {
        self.execute(true, Some(&step_control))
    }
}

} // verus!
