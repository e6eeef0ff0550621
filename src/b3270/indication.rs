//! The payloads of the indications that the emulator sends.

use vstd::prelude::*;

use crate::b3270::types::{Color, GraphicRendition};

verus! {

/// Declares the JSON value type that settings carry through unread.
#[verifier::external_type_specification]
#[verifier::external_body]
pub struct ExJsonValue(serde_json::Value);

/// Relies on the derived `Clone` of `serde_json::Value`: the copy is the same
/// JSON value.
pub assume_specification[ <serde_json::Value as Clone>::clone ](v: &serde_json::Value) -> (r:
    serde_json::Value)
    ensures
        r == *v,
;

/// A copy of an optional string.
pub fn clone_opt_string(o: &Option<String>) -> (r: Option<String>)
    ensures
        r == *o,
{
    match o {
        Some(s) => Some(s.clone()),
        None => None,
    }
}

/// A copy of a list of strings.
pub fn clone_strings(v: &Vec<String>) -> (r: Vec<String>)
    ensures
        r@ == v@,
{
    let mut r: Vec<String> = Vec::new();
    let mut i: usize = 0;
    while i < v.len()
        invariant
            i <= v@.len(),
            r@ == v@.take(i as int),
        decreases v@.len() - i,
    {
        r.push(v[i].clone());
        i += 1;
        assert(r@ =~= v@.take(i as int));
    }
    assert(v@.take(i as int) =~= v@);
    r
}

/// What caused an action.
#[derive(Clone, Copy, Debug, PartialEq, Eq, Structural)]
pub enum ActionCause {
    Command,
    Default,
    FileTransfer,
    Httpd,
    Idle,
    Keymap,
    Macro,
    /// Written `none` on the wire.
    NoCause,
    Password,
    Paste,
    Peek,
    ScreenRedraw,
    Script,
    Typeahead,
    Ui,
}

/// A supported code page.
#[derive(Debug, PartialEq)]
pub struct CodePage {
    /// The canonical name of the code page.
    pub name: String,
    pub aliases: Vec<String>,
}

impl Clone for CodePage {
    fn clone(&self) -> (r: CodePage)
        ensures
            r.name == self.name,
            r.aliases@ == self.aliases@,
    {
        CodePage { name: self.name.clone(), aliases: clone_strings(&self.aliases) }
    }
}

/// The state of the host connection.
#[derive(Debug, PartialEq)]
pub struct Connection {
    /// New connection state.
    pub state: ConnectionState,
    /// Host name, if connected.
    pub host: Option<String>,
    /// Source of the connection.
    pub cause: Option<ActionCause>,
}

impl Clone for Connection {
    fn clone(&self) -> (r: Connection)
        ensures
            r == *self,
    {
        Connection { state: self.state, host: clone_opt_string(&self.host), cause: self.cause }
    }
}

/// The kind of a composite character in progress.
#[derive(Clone, Copy, Debug, PartialEq, Eq, Structural)]
pub enum ComposeType {
    Std,
    Ge,
}

/// The states of the host connection.
#[derive(Clone, Copy, Debug, PartialEq, Eq, Structural)]
pub enum ConnectionState {
    NotConnected,
    Reconnecting,
    Resolving,
    TcpPending,
    TlsPending,
    TelnetPending,
    ConnectedNvt,
    ConnectedNvtCharmode,
    Connected3270,
    ConnectedUnbound,
    ConnectedENvt,
    ConnectedSscp,
    ConnectedTn3270e,
}

/// A screen erase, with the new logical size and default colors where
/// given.
#[derive(Clone, Copy, Debug, PartialEq, Eq, Structural)]
pub struct Erase {
    pub logical_rows: Option<u8>,
    pub logical_cols: Option<u8>,
    pub fg: Option<Color>,
    pub bg: Option<Color>,
}

/// The emulator's greeting.
#[derive(Debug, PartialEq)]
pub struct Hello {
    pub version: String,
    pub build: String,
    pub copyright: String,
}

impl Clone for Hello {
    fn clone(&self) -> (r: Hello)
        ensures
            r == *self,
    {
        Hello {
            version: self.version.clone(),
            build: self.build.clone(),
            copyright: self.copyright.clone(),
        }
    }
}

/// A supported 3270 model.
#[derive(Clone, Copy, Debug, PartialEq, Eq, Structural)]
pub struct Model {
    pub model: u8,
    pub rows: u8,
    pub columns: u8,
}

/// A field of the operator information area with its new value.
#[derive(Debug, PartialEq)]
pub enum OiaField {
    /// Composite character in progress.
    Compose { value: bool, char: Option<String>, type_: Option<ComposeType> },
    /// Insert mode.
    Insert { value: bool },
    /// Keyboard lock message.
    Lock { value: Option<String> },
    /// Host session logical unit name, and printer session LU name.
    Lu { value: String, lu: Option<String> },
    /// Communication pending.
    NotUndera { value: bool },
    /// Reverse input mode.
    ReverseInput { value: bool },
    /// Screen trace count.
    ScreenTrace { value: Option<usize> },
    Script { value: bool },
    /// Host command timer (minutes:seconds).
    Timing { value: Option<String> },
    Typeahead { value: bool },
}

impl Clone for OiaField {
    fn clone(&self) -> (r: OiaField)
        ensures
            r == *self,
    {
        match self {
            OiaField::Compose { value, char, type_ } => OiaField::Compose {
                value: *value,
                char: clone_opt_string(char),
                type_: *type_,
            },
            OiaField::Insert { value } => OiaField::Insert { value: *value },
            OiaField::Lock { value } => OiaField::Lock { value: clone_opt_string(value) },
            OiaField::Lu { value, lu } => OiaField::Lu {
                value: value.clone(),
                lu: clone_opt_string(lu),
            },
            OiaField::NotUndera { value } => OiaField::NotUndera { value: *value },
            OiaField::ReverseInput { value } => OiaField::ReverseInput { value: *value },
            OiaField::ScreenTrace { value } => OiaField::ScreenTrace { value: *value },
            OiaField::Script { value } => OiaField::Script { value: *value },
            OiaField::Timing { value } => OiaField::Timing { value: clone_opt_string(value) },
            OiaField::Typeahead { value } => OiaField::Typeahead { value: *value },
        }
    }
}

/// The names of the fields of the operator information area.
#[derive(Clone, Copy, Debug, PartialEq, Eq, PartialOrd, Ord, Hash, Structural)]
pub enum OiaFieldName {
    Compose,
    Insert,
    Lock,
    Lu,
    NotUndera,
    PrinterSession,
    ReverseInput,
    ScreenTrace,
    Script,
    Timing,
    Typeahead,
}

/// The number of field names.
pub const OIA_FIELD_COUNT: usize = 11;

/// The position of a field name in declaration order.
pub open spec fn oia_name_index(n: OiaFieldName) -> nat {
    match n {
        OiaFieldName::Compose => 0,
        OiaFieldName::Insert => 1,
        OiaFieldName::Lock => 2,
        OiaFieldName::Lu => 3,
        OiaFieldName::NotUndera => 4,
        OiaFieldName::PrinterSession => 5,
        OiaFieldName::ReverseInput => 6,
        OiaFieldName::ScreenTrace => 7,
        OiaFieldName::Script => 8,
        OiaFieldName::Timing => 9,
        OiaFieldName::Typeahead => 10,
    }
}

/// The name of the field that a value is for.
pub open spec fn oia_field_name(f: OiaField) -> OiaFieldName {
    match f {
        OiaField::Compose { .. } => OiaFieldName::Compose,
        OiaField::Insert { .. } => OiaFieldName::Insert,
        OiaField::Lock { .. } => OiaFieldName::Lock,
        OiaField::Lu { .. } => OiaFieldName::Lu,
        OiaField::NotUndera { .. } => OiaFieldName::NotUndera,
        OiaField::ReverseInput { .. } => OiaFieldName::ReverseInput,
        OiaField::ScreenTrace { .. } => OiaFieldName::ScreenTrace,
        OiaField::Script { .. } => OiaFieldName::Script,
        OiaField::Timing { .. } => OiaFieldName::Timing,
        OiaField::Typeahead { .. } => OiaFieldName::Typeahead,
    }
}

impl OiaFieldName {
    /// The position of the name in declaration order.
    pub fn index(self) -> (r: usize)
        ensures
            r == oia_name_index(self),
            r < OIA_FIELD_COUNT,
    {
        match self {
            OiaFieldName::Compose => 0,
            OiaFieldName::Insert => 1,
            OiaFieldName::Lock => 2,
            OiaFieldName::Lu => 3,
            OiaFieldName::NotUndera => 4,
            OiaFieldName::PrinterSession => 5,
            OiaFieldName::ReverseInput => 6,
            OiaFieldName::ScreenTrace => 7,
            OiaFieldName::Script => 8,
            OiaFieldName::Timing => 9,
            OiaFieldName::Typeahead => 10,
        }
    }
}

impl OiaField {
    /// The name of the field that this value is for.
    pub fn field_name(&self) -> (r: OiaFieldName)
        ensures
            r == oia_field_name(*self),
    {
        match self {
            OiaField::Compose { .. } => OiaFieldName::Compose,
            OiaField::Insert { .. } => OiaFieldName::Insert,
            OiaField::Lock { .. } => OiaFieldName::Lock,
            OiaField::Lu { .. } => OiaFieldName::Lu,
            OiaField::NotUndera { .. } => OiaFieldName::NotUndera,
            OiaField::ReverseInput { .. } => OiaFieldName::ReverseInput,
            OiaField::ScreenTrace { .. } => OiaFieldName::ScreenTrace,
            OiaField::Script { .. } => OiaFieldName::Script,
            OiaField::Timing { .. } => OiaFieldName::Timing,
            OiaField::Typeahead { .. } => OiaFieldName::Typeahead,
        }
    }
}

/// A supported proxy type.
#[derive(Debug, PartialEq)]
pub struct Proxy {
    pub name: String,
    pub username: bool,
    pub port: Option<u16>,
}

impl Clone for Proxy {
    fn clone(&self) -> (r: Proxy)
        ensures
            r == *self,
    {
        Proxy { name: self.name.clone(), username: self.username, port: self.port }
    }
}

/// A setting and its new value, which is carried through unread.
#[derive(Debug, PartialEq)]
pub struct Setting {
    pub name: String,
    pub value: Option<serde_json::Value>,
    pub cause: Option<ActionCause>,
}

impl Clone for Setting {
    fn clone(&self) -> (r: Setting)
        ensures
            r == *self,
    {
        let value = match &self.value {
            Some(v) => Some(v.clone()),
            None => None,
        };
        Setting { name: self.name.clone(), value, cause: self.cause }
    }
}

/// The screen model and size.
#[derive(Clone, Copy, Debug, PartialEq, Eq, Structural)]
pub struct ScreenMode {
    pub model: u8,
    pub rows: u8,
    pub columns: u8,
    pub color: bool,
    pub oversize: bool,
    pub extended: bool,
}

/// The emulator's build-time TLS support.
#[derive(Debug, PartialEq)]
pub struct TlsHello {
    pub supported: bool,
    pub provider: String,
    pub options: Vec<String>,
}

impl Clone for TlsHello {
    fn clone(&self) -> (r: TlsHello)
        ensures
            r.supported == self.supported,
            r.provider == self.provider,
            r.options@ == self.options@,
    {
        TlsHello {
            supported: self.supported,
            provider: self.provider.clone(),
            options: clone_strings(&self.options),
        }
    }
}

/// The TLS state of the connection.
#[derive(Debug, PartialEq)]
pub struct Tls {
    pub secure: bool,
    pub verified: Option<bool>,
    pub session: Option<String>,
    pub host_cert: Option<String>,
}

impl Clone for Tls {
    fn clone(&self) -> (r: Tls)
        ensures
            r == *self,
    {
        Tls {
            secure: self.secure,
            verified: self.verified,
            session: clone_opt_string(&self.session),
            host_cert: clone_opt_string(&self.host_cert),
        }
    }
}

/// A connection attempt to a host address.
#[derive(Debug, PartialEq)]
pub struct ConnectAttempt {
    pub host_ip: String,
    pub port: String,
}

/// The cursor: whether it is shown, and its 1-based position.
#[derive(Clone, Copy, Debug, PartialEq, Eq, Structural)]
pub struct Cursor {
    pub enabled: bool,
    pub row: Option<u8>,
    pub column: Option<u8>,
}

/// A change in a file transfer.
#[derive(Debug, PartialEq)]
pub struct FileTransfer {
    pub state: FileTransferState,
    pub cause: ActionCause,
}

/// The states of a file transfer.
#[derive(Debug, PartialEq)]
pub enum FileTransferState {
    Awaiting,
    Running {
        /// Number of bytes transferred.
        bytes: usize,
    },
    Aborting,
    Complete {
        /// Completion message.
        text: String,
        /// Whether the transfer succeeded.
        success: bool,
    },
}

/// A pass-through action that a client must complete.
#[derive(Debug, PartialEq)]
pub struct Passthru {
    pub p_tag: String,
    pub parent_r_tag: Option<String>,
    pub action: String,
    pub args: Vec<String>,
}

/// An asynchronous message.
#[derive(Debug, PartialEq)]
pub struct Popup {
    pub type_: PopupType,
    pub text: String,
    pub error: Option<bool>,
}

/// The kinds of asynchronous message.
#[derive(Clone, Copy, Debug, PartialEq, Eq, Structural)]
pub enum PopupType {
    /// Error message from a connection attempt.
    ConnectError,
    /// Error message.
    Error,
    /// Informational message.
    Info,
    /// Stray action output.
    Result,
    /// Output from the printer process.
    Printer,
    /// Output from another child process.
    Child,
}

/// The changes to one screen row; `row` is 1-based.
#[derive(Debug, PartialEq)]
pub struct Row {
    pub row: u8,
    pub changes: Vec<Change>,
}

/// A change either to the attributes of `Count` cells, or to the characters
/// and attributes of the cells that `Text` covers.
#[derive(Debug, PartialEq)]
pub enum CountOrText {
    Count(usize),
    Text(String),
}

/// The number of cells that a change covers.
pub open spec fn change_len(c: CountOrText) -> nat {
    match c {
        CountOrText::Count(n) => n as nat,
        CountOrText::Text(t) => t@.len(),
    }
}

impl CountOrText {
    /// The number of cells that the change covers: the count, or the number
    /// of characters of the text.
    pub fn len(&self) -> (r: usize)
        ensures
            r == change_len(*self),
    {
        match self {
            CountOrText::Count(n) => *n,
            CountOrText::Text(text) => text.as_str().unicode_len(),
        }
    }
}

/// A change starting at a 1-based column; the colors and rendition are
/// applied where given.
#[derive(Debug, PartialEq)]
pub struct Change {
    pub column: u8,
    pub change: CountOrText,
    pub fg: Option<Color>,
    pub bg: Option<Color>,
    /// Graphic rendition.
    pub gr: Option<GraphicRendition>,
}

/// A screen update, with an optional new cursor.
#[derive(Debug, PartialEq)]
pub struct Screen {
    pub cursor: Option<Cursor>,
    pub rows: Vec<Row>,
}

/// The result of a run operation. `time_bits` holds the bits of the
/// execution time in seconds, a 32-bit float.
#[derive(Debug, PartialEq)]
pub struct RunResult {
    pub r_tag: Option<String>,
    pub success: bool,
    pub text: Vec<String>,
    pub abort: Option<bool>,
    pub time_bits: u32,
}

/// A scroll by one row, with the colors of the new row where given.
#[derive(Clone, Copy, Debug, PartialEq, Eq, Structural)]
pub struct Scroll {
    pub fg: Option<Color>,
    pub bg: Option<Color>,
}

/// Input/output statistics.
#[derive(Clone, Copy, Debug, PartialEq, Eq, Structural)]
pub struct Stats {
    pub bytes_received: usize,
    pub bytes_sent: usize,
    pub records_received: usize,
    pub records_sent: usize,
}

/// The terminal name sent to the host.
#[derive(Debug, PartialEq)]
pub struct TerminalName {
    pub text: String,
    pub override_: bool,
}

impl Clone for TerminalName {
    fn clone(&self) -> (r: TerminalName)
        ensures
            r == *self,
    {
        TerminalName { text: self.text.clone(), override_: self.override_ }
    }
}

/// The scrollbar thumb. `top_bits` and `shown_bits` hold the bits of 32-bit
/// floats: the fraction of the scrollbar above the thumb, and the fraction
/// that the thumb covers.
#[derive(Clone, Copy, Debug, PartialEq, Eq, Structural)]
pub struct Thumb {
    pub top_bits: u32,
    pub shown_bits: u32,
    /// Number of rows saved.
    pub saved: usize,
    /// Size of a screen in rows.
    pub screen: usize,
    /// Number of rows scrolled back.
    pub back: usize,
}

/// The name of the trace file, if tracing.
#[derive(Debug, PartialEq)]
pub struct TraceFile {
    pub name: Option<String>,
}

impl Clone for TraceFile {
    fn clone(&self) -> (r: TraceFile)
        ensures
            r == *self,
    {
        TraceFile { name: clone_opt_string(&self.name) }
    }
}

/// An error in the emulator's input.
#[derive(Debug, PartialEq)]
pub struct UiError {
    pub fatal: bool,
    pub text: String,
    pub operation: Option<String>,
    pub member: Option<String>,
    pub line: Option<usize>,
    pub column: Option<usize>,
}

} // verus!
