//! The messages of the `b3270` JSON protocol: indications from the emulator
//! and operations to it.

pub mod indication;
pub mod operation;
pub mod types;

use vstd::prelude::*;

use crate::b3270::indication::{
    CodePage, ConnectAttempt, Connection, Erase, FileTransfer, Hello, Model, OiaField, Passthru,
    Popup, Proxy, RunResult, Screen, ScreenMode, Scroll, Setting, Stats, TerminalName, Thumb, Tls,
    TlsHello, TraceFile, UiError,
};
use crate::b3270::operation::{Fail, Register, Run, Succeed};

verus! {

/// A message from the emulator.
#[derive(Debug, PartialEq)]
pub enum Indication {
    Bell {},
    /// The host connection changed state.
    Connection(Connection),
    /// A new host connection is being attempted.
    ConnectAttempt(ConnectAttempt),
    /// The screen was erased, possibly to a new size.
    Erase(Erase),
    /// The display switched between left-to-right and right-to-left.
    Flipped { value: bool },
    /// An escape sequence requested a new font.
    Font { text: String },
    /// The formatting state of the screen changed.
    Formatted { state: bool },
    /// The state of a file transfer changed.
    FileTransfer(FileTransfer),
    /// An escape sequence requested a new icon name.
    Icon { text: String },
    /// The first message sent.
    Initialize(Vec<InitializeIndication>),
    /// A field of the operator information area changed.
    Oia(OiaField),
    /// A pass-through action was invoked.
    Passthru(Passthru),
    /// An asynchronous message to display.
    Popup(Popup),
    /// The result of a run operation.
    RunResult(RunResult),
    /// The screen contents changed.
    Screen(Screen),
    /// The screen dimensions or characteristics changed.
    ScreenMode(ScreenMode),
    /// The screen scrolled up by one row.
    Scroll(Scroll),
    /// A setting changed.
    Setting(Setting),
    /// Input/output statistics.
    Stats(Stats),
    /// The scrollbar thumb moved.
    Thumb(Thumb),
    /// The name of the trace file.
    TraceFile(TraceFile),
    /// The TLS state changed.
    Tls(Tls),
    /// An error in the emulator's input.
    UiError(UiError),
    /// An escape sequence requested a new window title.
    WindowTitle { text: String },
}

/// An element of the `Initialize` indication.
#[derive(Debug, PartialEq)]
pub enum InitializeIndication {
    CodePages(Vec<CodePage>),
    Connection(Connection),
    Erase(Erase),
    Hello(Hello),
    Models(Vec<Model>),
    Oia(OiaField),
    Prefixes { value: String },
    Proxies(Vec<Proxy>),
    ScreenMode(ScreenMode),
    Setting(Setting),
    TerminalName(TerminalName),
    Thumb(Thumb),
    TlsHello(TlsHello),
    Tls(Tls),
    TraceFile(TraceFile),
}

/// `b` holds the same values as `a`.
pub open spec fn init_copy(a: InitializeIndication, b: InitializeIndication) -> bool {
    match (a, b) {
        (InitializeIndication::CodePages(x), InitializeIndication::CodePages(y)) => {
            &&& x@.len() == y@.len()
            &&& forall|i: int|
                0 <= i < x@.len() ==> #[trigger] x@[i].name == y@[i].name && x@[i].aliases@
                    == y@[i].aliases@
        },
        (InitializeIndication::Models(x), InitializeIndication::Models(y)) => x@ == y@,
        (InitializeIndication::Proxies(x), InitializeIndication::Proxies(y)) => x@ == y@,
        (InitializeIndication::TlsHello(x), InitializeIndication::TlsHello(y)) => {
            &&& x.supported == y.supported
            &&& x.provider == y.provider
            &&& x.options@ == y.options@
        },
        _ => a == b,
    }
}

impl Clone for InitializeIndication {
    fn clone(&self) -> (r: InitializeIndication)
        ensures
            init_copy(*self, r),
    {
        match self {
            InitializeIndication::CodePages(x) => {
                let mut y: Vec<CodePage> = Vec::new();
                let mut i: usize = 0;
                while i < x.len()
                    invariant
                        i <= x@.len(),
                        y@.len() == i,
                        forall|k: int|
                            0 <= k < i ==> #[trigger] x@[k].name == y@[k].name && x@[k].aliases@
                                == y@[k].aliases@,
                    decreases x@.len() - i,
                {
                    y.push(x[i].clone());
                    i += 1;
                }
                InitializeIndication::CodePages(y)
            },
            InitializeIndication::Models(x) => {
                let mut y: Vec<Model> = Vec::new();
                let mut i: usize = 0;
                while i < x.len()
                    invariant
                        i <= x@.len(),
                        y@ == x@.take(i as int),
                    decreases x@.len() - i,
                {
                    y.push(x[i]);
                    i += 1;
                    assert(y@ =~= x@.take(i as int));
                }
                assert(x@.take(i as int) =~= x@);
                InitializeIndication::Models(y)
            },
            InitializeIndication::Proxies(x) => {
                let mut y: Vec<Proxy> = Vec::new();
                let mut i: usize = 0;
                while i < x.len()
                    invariant
                        i <= x@.len(),
                        y@ == x@.take(i as int),
                    decreases x@.len() - i,
                {
                    y.push(x[i].clone());
                    i += 1;
                    assert(y@ =~= x@.take(i as int));
                }
                assert(x@.take(i as int) =~= x@);
                InitializeIndication::Proxies(y)
            },
            InitializeIndication::Connection(c) => InitializeIndication::Connection(c.clone()),
            InitializeIndication::Erase(e) => InitializeIndication::Erase(*e),
            InitializeIndication::Hello(h) => InitializeIndication::Hello(h.clone()),
            InitializeIndication::Oia(f) => InitializeIndication::Oia(f.clone()),
            InitializeIndication::Prefixes { value } => InitializeIndication::Prefixes {
                value: value.clone(),
            },
            InitializeIndication::ScreenMode(m) => InitializeIndication::ScreenMode(*m),
            InitializeIndication::Setting(s) => InitializeIndication::Setting(s.clone()),
            InitializeIndication::TerminalName(t) => InitializeIndication::TerminalName(t.clone()),
            InitializeIndication::Thumb(t) => InitializeIndication::Thumb(*t),
            InitializeIndication::TlsHello(t) => InitializeIndication::TlsHello(t.clone()),
            InitializeIndication::Tls(t) => InitializeIndication::Tls(t.clone()),
            InitializeIndication::TraceFile(t) => InitializeIndication::TraceFile(t.clone()),
        }
    }
}

/// A request to the emulator.
#[derive(Debug, PartialEq)]
pub enum Operation {
    /// Run actions.
    Run(Run),
    /// Register a pass-through action.
    Register(Register),
    /// A pass-through action failed.
    Fail(Fail),
    /// A pass-through action succeeded.
    Succeed(Succeed),
}

} // verus!
