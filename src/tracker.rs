//! The replica of the emulator's state, folded from its indications, and
//! the resync snapshot that rebuilds it.

use vstd::prelude::*;

use crate::b3270::indication::{
    clone_opt_string, Change, ComposeType, Connection, ConnectionState, CountOrText, Cursor, Erase,
    OiaField, OiaFieldName, Row, RunResult, Screen, ScreenMode, Scroll, Setting, Thumb, Tls,
    TraceFile, OIA_FIELD_COUNT, oia_field_name, oia_name_index, change_len,
};
use crate::b3270::types::{
    lemma_attr_fields, lemma_color_field, lemma_overwrite,
    attr_bg, attr_fg, attr_gr, color_of_ord, color_ord, lemma_packed_attr, lemma_with_bg,
    lemma_with_fg, lemma_with_gr, lemma_zero_gr, pack, valid_attr, with_bg, with_fg, with_gr, Color,
    GraphicRendition, PackedAttr,
};
use crate::b3270::{init_copy, Indication, InitializeIndication};

verus! {

/// One screen cell: a character and its packed attribute.
#[derive(Clone, Copy, Debug, PartialEq, Eq, Structural)]
pub struct CharCell {
    pub ch: char,
    pub attr: u32,
}

/// What to do with an indication once it has been folded in.
#[derive(Debug, PartialEq)]
pub enum Disposition {
    /// Deliver it to every connected client.
    Broadcast,
    /// Ignore it.
    Drop,
    /// Deliver it to the requester of the run with this tag.
    Direct(String),
}

/// The operator information area, flattened into the values a display
/// needs.
#[derive(Debug, PartialEq)]
pub struct OiaTracker {
    pub compose: Option<(ComposeType, String)>,
    pub insert: bool,
    pub lock: Option<String>,
    /// Terminal LU name.
    pub lu: Option<String>,
    pub not_undera: bool,
    pub printer_lu: Option<String>,
    pub reverse_input: bool,
    pub screen_trace: Option<usize>,
    pub script: bool,
    pub timing: Option<String>,
    pub typeahead: bool,
}

/// The flattened area after a field write.
pub open spec fn noticed(st: OiaTracker, f: OiaField) -> OiaTracker {
    match f {
        OiaField::Compose { value, char, type_ } => {
            if value && type_ is Some && char is Some {
                OiaTracker { compose: Some((type_->0, char->0)), ..st }
            } else if !value {
                OiaTracker { compose: None, ..st }
            } else {
                st
            }
        },
        OiaField::Insert { value } => OiaTracker { insert: value, ..st },
        OiaField::Lock { value } => OiaTracker { lock: value, ..st },
        OiaField::Lu { value, lu } => OiaTracker { lu: Some(value), printer_lu: lu, ..st },
        OiaField::NotUndera { value } => OiaTracker { not_undera: value, ..st },
        OiaField::ReverseInput { value } => OiaTracker { reverse_input: value, ..st },
        OiaField::ScreenTrace { value } => OiaTracker { screen_trace: value, ..st },
        OiaField::Script { value } => OiaTracker { script: value, ..st },
        OiaField::Timing { value } => OiaTracker { timing: value, ..st },
        OiaField::Typeahead { value } => OiaTracker { typeahead: value, ..st },
    }
}

/// The flattened area of a fresh tracker.
pub open spec fn initial_oia_state() -> OiaTracker {
    OiaTracker {
        compose: None,
        insert: false,
        lock: None,
        lu: None,
        not_undera: false,
        printer_lu: None,
        reverse_input: false,
        screen_trace: None,
        script: false,
        timing: None,
        typeahead: false,
    }
}

impl Default for OiaTracker {
    fn default() -> (r: OiaTracker)
        ensures
            r == initial_oia_state(),
    {
        OiaTracker {
            compose: None,
            insert: false,
            lock: None,
            lu: None,
            not_undera: false,
            printer_lu: None,
            reverse_input: false,
            screen_trace: None,
            script: false,
            timing: None,
            typeahead: false,
        }
    }
}

impl OiaTracker {
    /// Records a field write. A compose field that is set without both a
    /// type and a character changes nothing.
    pub fn notice(&mut self, oia: OiaField)
        ensures
            *final(self) == noticed(*old(self), oia),
    {
        match oia {
            OiaField::Compose { value, char, type_ } => {
                if value {
                    match (type_, char) {
                        (Some(typ), Some(ch_str)) => {
                            self.compose = Some((typ, ch_str));
                        },
                        _ => {},
                    }
                } else {
                    self.compose = None;
                }
            },
            OiaField::Insert { value } => self.insert = value,
            OiaField::Lock { value } => self.lock = value,
            OiaField::Lu { value, lu } => {
                self.lu = Some(value);
                self.printer_lu = lu;
            },
            OiaField::NotUndera { value } => self.not_undera = value,
            OiaField::ReverseInput { value } => self.reverse_input = value,
            OiaField::ScreenTrace { value } => self.screen_trace = value,
            OiaField::Script { value } => self.script = value,
            OiaField::Timing { value } => self.timing = value,
            OiaField::Typeahead { value } => self.typeahead = value,
        }
    }
}

/// The replica of the emulator's state.
pub struct Tracker {
    screen: Vec<Vec<CharCell>>,
    oia: Vec<Option<OiaField>>,
    screen_mode: ScreenMode,
    erase: Erase,
    thumb: Thumb,
    settings: Vec<Setting>,
    cursor: Cursor,
    connection: Connection,
    formatted: bool,
    trace_file: Option<String>,
    tls: Option<Tls>,
    oia_tracker: OiaTracker,
    static_init: Vec<InitializeIndication>,
}

/// The state of a tracker as values. `oia` holds one slot per field name,
/// in declaration order; `settings` holds one entry per name, in the order
/// the names first appeared.
pub ghost struct TrackerView {
    pub screen: Seq<Seq<CharCell>>,
    pub oia: Seq<Option<OiaField>>,
    pub screen_mode: ScreenMode,
    pub erase: Erase,
    pub thumb: Thumb,
    pub settings: Seq<Setting>,
    pub cursor: Cursor,
    pub connection: Connection,
    pub formatted: bool,
    pub trace_file: Option<String>,
    pub tls: Option<Tls>,
    pub oia_state: OiaTracker,
}

impl View for Tracker {
    type V = TrackerView;

    closed spec fn view(&self) -> TrackerView {
        TrackerView {
            screen: grid_view(self.screen@),
            oia: self.oia@,
            screen_mode: self.screen_mode,
            erase: self.erase,
            thumb: self.thumb,
            settings: self.settings@,
            cursor: self.cursor,
            connection: self.connection,
            formatted: self.formatted,
            trace_file: self.trace_file,
            tls: self.tls,
            oia_state: self.oia_tracker,
        }
    }
}

/// The index of the setting named `name`.
pub open spec fn setting_pos(settings: Seq<Setting>, name: Seq<char>) -> Option<nat>
    decreases settings.len(),
{
    if settings.len() == 0 {
        None
    } else if settings.last().name@ == name {
        Some((settings.len() - 1) as nat)
    } else {
        setting_pos(settings.drop_last(), name)
    }
}

/// No two settings share a name.
pub open spec fn settings_unique(settings: Seq<Setting>) -> bool {
    forall|i: int, j: int|
        0 <= i < j < settings.len() ==> #[trigger] settings[i].name@ != #[trigger] settings[j].name@
}

/// Each OIA slot holds a value of its own field.
pub open spec fn oia_slots_ok(oia: Seq<Option<OiaField>>) -> bool {
    &&& oia.len() == OIA_FIELD_COUNT
    &&& forall|i: int|
        0 <= i < oia.len() ==> (#[trigger] oia[i] matches Some(f) ==> oia_name_index(
            oia_field_name(f),
        ) == i)
}

/// Every cell's attribute is valid.
pub open spec fn attrs_valid(screen: Seq<Seq<CharCell>>) -> bool {
    forall|i: int, j: int|
        0 <= i < screen.len() && 0 <= j < screen[i].len() ==> valid_attr(
            #[trigger] screen[i][j].attr,
        )
}

/// The screen has at most 255 rows of at most 255 cells, so that 1-based
/// positions fit the protocol's `u8`.
pub open spec fn screen_bounded(screen: Seq<Seq<CharCell>>) -> bool {
    &&& screen.len() <= 255
    &&& forall|i: int| 0 <= i < screen.len() ==> #[trigger] screen[i].len() <= 255
}

impl TrackerView {
    /// The invariant of every tracker.
    pub open spec fn wf(self) -> bool {
        &&& oia_slots_ok(self.oia)
        &&& settings_unique(self.settings)
        &&& attrs_valid(self.screen)
        &&& screen_bounded(self.screen)
        &&& self.shaped()
    }

    /// The number of screen rows: the erase size once an erase has been
    /// seen, the screen mode's before.
    pub open spec fn rows(self) -> nat {
        match self.erase.logical_rows {
            Some(r) => r as nat,
            None => self.screen_mode.rows as nat,
        }
    }

    /// The number of screen columns, in the same way.
    pub open spec fn cols(self) -> nat {
        match self.erase.logical_cols {
            Some(c) => c as nat,
            None => self.screen_mode.columns as nat,
        }
    }

    /// The erase defaults are all known (after an erase) or all unknown
    /// (before one), and the screen is `rows` by `cols`.
    pub open spec fn shaped(self) -> bool {
        &&& (self.erase.logical_rows is Some && self.erase.logical_cols is Some && self.erase.fg is Some
            && self.erase.bg is Some) || (self.erase.logical_rows is None && self.erase.logical_cols
            is None && self.erase.fg is None && self.erase.bg is None)
        &&& self.screen.len() == self.rows()
        &&& forall|i: int| 0 <= i < self.screen.len() ==> #[trigger] self.screen[i].len() == self.cols()
    }
}

/// A blank cell in the given colors.
pub open spec fn blank_cell(fg: Color, bg: Color) -> CharCell {
    CharCell { ch: ' ', attr: pack(color_ord(fg), color_ord(bg), 0) }
}

/// A row of `cols` blank cells.
pub open spec fn blank_row(cols: nat, fg: Color, bg: Color) -> Seq<CharCell> {
    Seq::new(cols, |j: int| blank_cell(fg, bg))
}

/// A screen of `rows` blank rows.
pub open spec fn blank_screen(rows: nat, cols: nat, fg: Color, bg: Color) -> Seq<Seq<CharCell>> {
    Seq::new(rows, |i: int| blank_row(cols, fg, bg))
}

/// The erase defaults after merging `e` into the current ones.
pub open spec fn merged_erase(t: TrackerView, e: Erase) -> Erase {
    Erase {
        logical_rows: Some(
            match e.logical_rows {
                Some(r) => r,
                None => match t.erase.logical_rows {
                    Some(r) => r,
                    None => t.screen_mode.rows,
                },
            },
        ),
        logical_cols: Some(
            match e.logical_cols {
                Some(c) => c,
                None => match t.erase.logical_cols {
                    Some(c) => c,
                    None => t.screen_mode.columns,
                },
            },
        ),
        fg: Some(
            match e.fg {
                Some(c) => c,
                None => match t.erase.fg {
                    Some(c) => c,
                    None => Color::NeutralWhite,
                },
            },
        ),
        bg: Some(
            match e.bg {
                Some(c) => c,
                None => match t.erase.bg {
                    Some(c) => c,
                    None => Color::NeutralBlack,
                },
            },
        ),
    }
}

/// The state after an erase: merged defaults and a blank screen of the
/// merged size.
pub open spec fn after_erase(t: TrackerView, e: Erase) -> TrackerView {
    let m = merged_erase(t, e);
    TrackerView {
        erase: m,
        screen: blank_screen(
            m.logical_rows->0 as nat,
            m.logical_cols->0 as nat,
            m.fg->0,
            m.bg->0,
        ),
        ..t
    }
}

/// The erase that a screen mode change implies.
pub open spec fn mode_erase(sm: ScreenMode) -> Erase {
    Erase {
        logical_rows: Some(sm.rows),
        logical_cols: Some(sm.columns),
        fg: None,
        bg: None,
    }
}

/// The state after a screen mode change.
pub open spec fn after_screen_mode(t: TrackerView, sm: ScreenMode) -> TrackerView {
    after_erase(TrackerView { screen_mode: sm, ..t }, mode_erase(sm))
}

/// The colors of the row that a scroll brings in.
pub open spec fn scroll_fg(t: TrackerView, sc: Scroll) -> Color {
    match sc.fg {
        Some(c) => c,
        None => match t.erase.fg {
            Some(c) => c,
            None => Color::Blue,
        },
    }
}

/// The background of the row that a scroll brings in.
pub open spec fn scroll_bg(t: TrackerView, sc: Scroll) -> Color {
    match sc.bg {
        Some(c) => c,
        None => match t.erase.bg {
            Some(c) => c,
            None => Color::NeutralBlack,
        },
    }
}

/// The state after a scroll: the top row leaves and a blank row as wide as
/// it enters at the bottom. An empty screen stays as it is.
pub open spec fn after_scroll(t: TrackerView, sc: Scroll) -> TrackerView {
    if t.screen.len() == 0 {
        t
    } else {
        TrackerView {
            screen: t.screen.drop_first().push(
                blank_row(t.screen[0].len(), scroll_fg(t, sc), scroll_bg(t, sc)),
            ),
            ..t
        }
    }
}

/// An attribute with the colors and rendition that a change sets.
pub open spec fn changed_attr(a: u32, c: Change) -> u32 {
    let a1 = match c.fg {
        Some(f) => with_fg(a, color_ord(f)),
        None => a,
    };
    let a2 = match c.bg {
        Some(b) => with_bg(a1, color_ord(b)),
        None => a1,
    };
    match c.gr {
        Some(g) => with_gr(a2, g@),
        None => a2,
    }
}

/// The cell at `j` of a row after a change. Columns are 1-based; a change
/// at column 0 changes nothing.
pub open spec fn changed_cell(cell: CharCell, c: Change, j: int) -> CharCell {
    let start = c.column as int - 1;
    if c.column == 0 || j < start || j >= start + change_len(c.change) {
        cell
    } else {
        match c.change {
            CountOrText::Count(_) => CharCell { ch: cell.ch, attr: changed_attr(cell.attr, c) },
            CountOrText::Text(t) => CharCell { ch: t@[j - start], attr: changed_attr(cell.attr, c) },
        }
    }
}

/// A row after one change.
pub open spec fn apply_change(row: Seq<CharCell>, c: Change) -> Seq<CharCell> {
    Seq::new(row.len(), |j: int| changed_cell(row[j], c, j))
}

/// A row after a list of changes, in order.
pub open spec fn apply_changes(row: Seq<CharCell>, cs: Seq<Change>) -> Seq<CharCell>
    decreases cs.len(),
{
    if cs.len() == 0 {
        row
    } else {
        apply_change(apply_changes(row, cs.drop_last()), cs.last())
    }
}

/// Changes keep the length of a row.
pub proof fn lemma_apply_changes_len(row: Seq<CharCell>, cs: Seq<Change>)
    ensures
        apply_changes(row, cs).len() == row.len(),
    decreases cs.len(),
{
    if cs.len() > 0 {
        lemma_apply_changes_len(row, cs.drop_last());
    }
}

/// A screen after the changes of one row; rows are 1-based, and a row
/// outside the screen changes nothing.
pub open spec fn apply_row(screen: Seq<Seq<CharCell>>, r: Row) -> Seq<Seq<CharCell>> {
    if 1 <= r.row && r.row as int <= screen.len() {
        screen.update(r.row - 1, apply_changes(screen[r.row - 1], r.changes@))
    } else {
        screen
    }
}

/// A screen after a list of row updates, in order.
pub open spec fn apply_rows(screen: Seq<Seq<CharCell>>, rs: Seq<Row>) -> Seq<Seq<CharCell>>
    decreases rs.len(),
{
    if rs.len() == 0 {
        screen
    } else {
        apply_row(apply_rows(screen, rs.drop_last()), rs.last())
    }
}

/// The state after a screen update.
pub open spec fn after_screen(t: TrackerView, s: Screen) -> TrackerView {
    TrackerView {
        screen: apply_rows(t.screen, s.rows@),
        cursor: match s.cursor {
            Some(c) => c,
            None => t.cursor,
        },
        ..t
    }
}

/// The state after an OIA field write.
pub open spec fn after_oia(t: TrackerView, f: OiaField) -> TrackerView {
    TrackerView {
        oia: t.oia.update(oia_name_index(oia_field_name(f)) as int, Some(f)),
        oia_state: noticed(t.oia_state, f),
        ..t
    }
}

/// The settings after an upsert by name.
pub open spec fn upserted(settings: Seq<Setting>, s: Setting) -> Seq<Setting> {
    match setting_pos(settings, s.name@) {
        Some(i) => settings.update(i as int, s),
        None => settings.push(s),
    }
}

/// The state after a setting change.
pub open spec fn after_setting(t: TrackerView, s: Setting) -> TrackerView {
    TrackerView { settings: upserted(t.settings, s), ..t }
}

/// Whether an element of `Initialize` is kept verbatim for later snapshots.
pub open spec fn is_static_init(i: InitializeIndication) -> bool {
    match i {
        InitializeIndication::CodePages(_) | InitializeIndication::Hello(_)
        | InitializeIndication::Models(_) | InitializeIndication::Prefixes { .. }
        | InitializeIndication::Proxies(_) | InitializeIndication::TerminalName(_)
        | InitializeIndication::TlsHello(_) | InitializeIndication::Tls(_)
        | InitializeIndication::TraceFile(_) => true,
        _ => false,
    }
}

/// The state after one element of `Initialize`: the static ones change
/// nothing here, the rest act as the indication of the same name.
pub open spec fn after_init_item(t: TrackerView, i: InitializeIndication) -> TrackerView {
    match i {
        InitializeIndication::Thumb(th) => TrackerView { thumb: th, ..t },
        InitializeIndication::Setting(s) => after_setting(t, s),
        InitializeIndication::ScreenMode(sm) => after_screen_mode(t, sm),
        InitializeIndication::Oia(f) => after_oia(t, f),
        InitializeIndication::Erase(e) => after_erase(t, e),
        InitializeIndication::Connection(c) => TrackerView { connection: c, ..t },
        _ => t,
    }
}

/// The state after the elements of `Initialize`, in order.
pub open spec fn after_init(t: TrackerView, items: Seq<InitializeIndication>) -> TrackerView
    decreases items.len(),
{
    if items.len() == 0 {
        t
    } else {
        after_init_item(after_init(t, items.drop_last()), items.last())
    }
}

/// The state after an indication.
pub open spec fn after(t: TrackerView, ind: Indication) -> TrackerView {
    match ind {
        Indication::Connection(c) => TrackerView { connection: c, ..t },
        Indication::Erase(e) => after_erase(t, e),
        Indication::Formatted { state } => TrackerView { formatted: state, ..t },
        Indication::Initialize(items) => after_init(t, items@),
        Indication::Oia(f) => after_oia(t, f),
        Indication::Screen(s) => after_screen(t, s),
        Indication::ScreenMode(sm) => after_screen_mode(t, sm),
        Indication::Scroll(sc) => after_scroll(t, sc),
        Indication::Setting(s) => after_setting(t, s),
        Indication::Thumb(th) => TrackerView { thumb: th, ..t },
        Indication::TraceFile(tf) => TrackerView { trace_file: tf.name, ..t },
        Indication::Tls(tls) => TrackerView { tls: Some(tls), ..t },
        _ => t,
    }
}

/// The state after a list of indications, in order.
pub open spec fn replay(t: TrackerView, inds: Seq<Indication>) -> TrackerView
    decreases inds.len(),
{
    if inds.len() == 0 {
        t
    } else {
        after(replay(t, inds.drop_last()), inds.last())
    }
}

/// The indication as it is passed on: an erase carries the merged
/// defaults, anything else is unchanged.
pub open spec fn passed_on(t: TrackerView, ind: Indication) -> Indication {
    match ind {
        Indication::Erase(e) => Indication::Erase(merged_erase(t, e)),
        _ => ind,
    }
}

/// Where an indication goes: a run result to the requester of its tag, or
/// nowhere without a tag; anything else to every client.
pub open spec fn disposition_of(ind: Indication) -> Disposition {
    match ind {
        Indication::RunResult(rr) => match rr.r_tag {
            Some(tag) => Disposition::Direct(tag),
            None => Disposition::Drop,
        },
        _ => Disposition::Broadcast,
    }
}

/// The static elements of an `Initialize` list, in order.
pub open spec fn statics_of(items: Seq<InitializeIndication>) -> Seq<InitializeIndication>
    decreases items.len(),
{
    if items.len() == 0 {
        seq![]
    } else if is_static_init(items.last()) {
        statics_of(items.drop_last()).push(items.last())
    } else {
        statics_of(items.drop_last())
    }
}

/// `after` is `before` followed by copies of `added`.
pub open spec fn appended_copies(
    before: Seq<InitializeIndication>,
    after: Seq<InitializeIndication>,
    added: Seq<InitializeIndication>,
) -> bool {
    &&& after.len() == before.len() + added.len()
    &&& forall|i: int| 0 <= i < before.len() ==> #[trigger] after[i] == before[i]
    &&& forall|i: int|
        0 <= i < added.len() ==> init_copy(#[trigger] added[i], after[before.len() + i])
}

/// A copy of an element is of the same kind.
pub proof fn lemma_copy_kind(a: InitializeIndication, b: InitializeIndication)
    requires
        init_copy(a, b),
    ensures
        is_static_init(a) == is_static_init(b),
{
}

/// The state of a fresh tracker: a blank screen of 43 rows by 80 columns
/// in the erase colors (neutral white on neutral black), a 43x80 model 4
/// screen mode, no erase seen, not connected.
pub open spec fn initial_view() -> TrackerView {
    TrackerView {
        screen: blank_screen(43, 80, Color::NeutralWhite, Color::NeutralBlack),
        oia: Seq::new(OIA_FIELD_COUNT as nat, |i: int| None),
        screen_mode: ScreenMode {
            model: 4,
            rows: 43,
            columns: 80,
            color: true,
            oversize: false,
            extended: true,
        },
        erase: Erase { logical_rows: None, logical_cols: None, fg: None, bg: None },
        thumb: Thumb { top_bits: 0, shown_bits: 0, saved: 0, screen: 0, back: 0 },
        settings: seq![],
        cursor: Cursor { enabled: false, row: None, column: None },
        connection: Connection { state: ConnectionState::NotConnected, host: None, cause: None },
        formatted: false,
        trace_file: None,
        tls: None,
        oia_state: initial_oia_state(),
    }
}

/// The position of `name` among unique settings.
proof fn lemma_setting_pos(settings: Seq<Setting>, name: Seq<char>)
    requires
        settings_unique(settings),
    ensures
        setting_pos(settings, name) matches Some(i) ==> i < settings.len() && settings[i as int].name@
            == name,
        setting_pos(settings, name) is None ==> forall|k: int|
            0 <= k < settings.len() ==> #[trigger] settings[k].name@ != name,
        forall|k: int|
            0 <= k < settings.len() && #[trigger] settings[k].name@ == name ==> setting_pos(
                settings,
                name,
            ) == Some(k as nat),
    decreases settings.len(),
{
    if settings.len() > 0 {
        let pre = settings.drop_last();
        let last = (settings.len() - 1) as int;
        assert(settings_unique(pre)) by {
            assert forall|i: int, j: int| 0 <= i < j < pre.len() implies #[trigger] pre[i].name@
                != #[trigger] pre[j].name@ by {
                assert(pre[i] == settings[i] && pre[j] == settings[j]);
            }
        }
        lemma_setting_pos(pre, name);
        assert forall|k: int| 0 <= k < settings.len() && #[trigger] settings[k].name@ == name implies setting_pos(
            settings,
            name,
        ) == Some(k as nat) by {
            if k < last {
                assert(settings[k].name@ != settings[last].name@);
                assert(pre[k] == settings[k]);
            }
        }
        if settings[last].name@ != name {
            assert forall|k: int| 0 <= k < settings.len() && setting_pos(settings, name) is None implies #[trigger] settings[k].name@ != name by {
                if k < last {
                    assert(pre[k] == settings[k]);
                }
            }
            if setting_pos(settings, name) is Some {
                let i = setting_pos(settings, name)->0;
                assert(pre[i as int] == settings[i as int]);
            }
        }
    }
}

/// Upserting keeps names unique.
proof fn lemma_upsert_unique(settings: Seq<Setting>, s: Setting)
    requires
        settings_unique(settings),
    ensures
        settings_unique(upserted(settings, s)),
{
    lemma_setting_pos(settings, s.name@);
    let u = upserted(settings, s);
    match setting_pos(settings, s.name@) {
        Some(p) => {
            assert(p < settings.len());
            assert(u == settings.update(p as int, s));
            assert forall|i: int, j: int| 0 <= i < j < u.len() implies #[trigger] u[i].name@
                != #[trigger] u[j].name@ by {
                assert(settings[p as int].name@ == s.name@);
                if i == p {
                    assert(u[i] == s);
                    assert(u[j] == settings[j]);
                    assert(settings[j].name@ != settings[p as int].name@);
                } else if j == p {
                    assert(u[j] == s);
                    assert(u[i] == settings[i]);
                    assert(settings[i].name@ != settings[p as int].name@);
                } else {
                    assert(u[i] == settings[i] && u[j] == settings[j]);
                    assert(settings[i].name@ != settings[j].name@);
                }
            }
        },
        None => {
            assert forall|i: int, j: int| 0 <= i < j < u.len() implies #[trigger] u[i].name@
                != #[trigger] u[j].name@ by {
                if j == settings.len() {
                    assert(u[i] == settings[i]);
                } else {
                    assert(u[i] == settings[i] && u[j] == settings[j]);
                }
            }
        },
    }
}

/// A blank cell in the given colors.
fn blank(fg: Color, bg: Color) -> (r: CharCell)
    ensures
        r == blank_cell(fg, bg),
        valid_attr(r.attr),
{
    let attr = u32::c_pack(fg, bg, GraphicRendition::empty());
    proof {
        lemma_zero_gr();
        lemma_packed_attr(0, color_ord(fg), color_ord(bg), 0);
    }
    CharCell { ch: ' ', attr }
}

/// A row of `cols` blank cells.
fn blank_line(cols: usize, fg: Color, bg: Color) -> (r: Vec<CharCell>)
    ensures
        r@ == blank_row(cols as nat, fg, bg),
{
    let cell = blank(fg, bg);
    let mut r: Vec<CharCell> = Vec::new();
    let mut j: usize = 0;
    while j < cols
        invariant
            j <= cols,
            cell == blank_cell(fg, bg),
            r@ == blank_row(j as nat, fg, bg),
        decreases cols - j,
    {
        r.push(cell);
        j += 1;
        assert(r@ =~= blank_row(j as nat, fg, bg));
    }
    r
}

/// The screen view of a grid.
pub open spec fn grid_view(g: Seq<Vec<CharCell>>) -> Seq<Seq<CharCell>> {
    g.map_values(|r: Vec<CharCell>| r@)
}

/// A screen of blank cells.
fn blank_grid(rows: usize, cols: usize, fg: Color, bg: Color) -> (r: Vec<Vec<CharCell>>)
    ensures
        grid_view(r@) == blank_screen(rows as nat, cols as nat, fg, bg),
{
    let mut r: Vec<Vec<CharCell>> = Vec::new();
    let mut i: usize = 0;
    while i < rows
        invariant
            i <= rows,
            r@.len() == i,
            grid_view(r@) == blank_screen(i as nat, cols as nat, fg, bg),
        decreases rows - i,
    {
        let ghost before = r@;
        r.push(blank_line(cols, fg, bg));
        i += 1;
        assert forall|k: int| 0 <= k < i implies #[trigger] grid_view(r@)[k] == blank_screen(
            i as nat,
            cols as nat,
            fg,
            bg,
        )[k] by {
            if k < i - 1 {
                assert(r@[k] == before[k]);
                assert(grid_view(before)[k] == blank_screen((i - 1) as nat, cols as nat, fg, bg)[k]);
            }
        }
        assert(grid_view(r@) =~= blank_screen(i as nat, cols as nat, fg, bg));
    }
    r
}

/// A blank screen has valid attributes.
proof fn lemma_blank_valid(rows: nat, cols: nat, fg: Color, bg: Color)
    ensures
        attrs_valid(blank_screen(rows, cols, fg, bg)),
        valid_attr(blank_cell(fg, bg).attr),
{
    lemma_zero_gr();
    lemma_packed_attr(0, color_ord(fg), color_ord(bg), 0);
}

/// An attribute with the colors and rendition that a change sets.
fn change_attr(a: u32, c: &Change) -> (r: u32)
    ensures
        r == changed_attr(a, *c),
        valid_attr(a) ==> valid_attr(r),
{
    let mut attr = a;
    if let Some(fg) = c.fg {
        proof {
            lemma_with_fg(attr, color_ord(fg));
        }
        attr = attr.c_setfg(fg);
    }
    if let Some(bg) = c.bg {
        proof {
            lemma_with_bg(attr, color_ord(bg));
        }
        attr = attr.c_setbg(bg);
    }
    if let Some(gr) = c.gr {
        let g = gr.bits();
        proof {
            lemma_with_gr(attr, g);
        }
        attr = attr.c_setgr(gr);
    }
    attr
}

/// A row after one change.
fn changed_row(row: &Vec<CharCell>, c: &Change) -> (r: Vec<CharCell>)
    ensures
        r@ == apply_change(row@, *c),
        (forall|j: int| 0 <= j < row@.len() ==> valid_attr(#[trigger] row@[j].attr)) ==> (forall|
            j: int,
        | 0 <= j < r@.len() ==> valid_attr(#[trigger] r@[j].attr)),
{
    let n = row.len();
    let len = c.change.len();
    let mut r: Vec<CharCell> = Vec::new();
    let mut j: usize = 0;
    while j < n
        invariant
            n == row@.len(),
            len == change_len(c.change),
            j <= n,
            r@.len() == j,
            forall|k: int| 0 <= k < j ==> #[trigger] r@[k] == changed_cell(row@[k], *c, k),
            (forall|k: int| 0 <= k < row@.len() ==> valid_attr(#[trigger] row@[k].attr)) ==> (
            forall|k: int| 0 <= k < j ==> valid_attr(#[trigger] r@[k].attr)),
        decreases n - j,
    {
        let cell = row[j];
        if c.column == 0 || j < c.column as usize - 1 || j - (c.column as usize - 1) >= len {
            r.push(cell);
        } else {
            let attr = change_attr(cell.attr, c);
            let ch = match &c.change {
                CountOrText::Count(_) => cell.ch,
                CountOrText::Text(t) => t.as_str().get_char(j - (c.column as usize - 1)),
            };
            r.push(CharCell { ch, attr });
        }
        j += 1;
    }
    assert(r@ =~= apply_change(row@, *c));
    r
}

impl Tracker {
    /// The elements of `Initialize` kept verbatim for snapshots.
    pub closed spec fn static_items(&self) -> Seq<InitializeIndication> {
        self.static_init@
    }

    /// The invariant of every tracker.
    pub open spec fn wf(&self) -> bool {
        &&& self@.wf()
        &&& forall|i: int|
            0 <= i < self.static_items().len() ==> is_static_init(
                #[trigger] self.static_items()[i],
            )
    }

    /// Merges an erase into the defaults and blanks the screen at the merged
    /// size; returns the merged erase.
    fn handle_erase(&mut self, e: Erase) -> (m: Erase)
        requires
            old(self).wf(),
        ensures
            final(self).wf(),
            final(self)@ == after_erase(old(self)@, e),
            m == merged_erase(old(self)@, e),
            final(self).static_items() == old(self).static_items(),
    {
        let rows = match e.logical_rows {
            Some(r) => r,
            None => match self.erase.logical_rows {
                Some(r) => r,
                None => self.screen_mode.rows,
            },
        };
        let cols = match e.logical_cols {
            Some(c) => c,
            None => match self.erase.logical_cols {
                Some(c) => c,
                None => self.screen_mode.columns,
            },
        };
        let fg = match e.fg {
            Some(c) => c,
            None => match self.erase.fg {
                Some(c) => c,
                None => Color::NeutralWhite,
            },
        };
        let bg = match e.bg {
            Some(c) => c,
            None => match self.erase.bg {
                Some(c) => c,
                None => Color::NeutralBlack,
            },
        };
        let m = Erase { logical_rows: Some(rows), logical_cols: Some(cols), fg: Some(fg), bg: Some(bg) };
        self.erase = m;
        self.screen = blank_grid(rows as usize, cols as usize, fg, bg);
        proof {
            lemma_blank_valid(rows as nat, cols as nat, fg, bg);
            assert(self@.shaped());
            assert(oia_slots_ok(self@.oia));
            assert(settings_unique(self@.settings));
            assert(attrs_valid(self@.screen));
            assert(self.static_items() == old(self).static_items());
        }
        m
    }

    /// Records a new screen mode and erases to its size.
    fn handle_screen_mode(&mut self, sm: ScreenMode)
        requires
            old(self).wf(),
        ensures
            final(self).wf(),
            final(self)@ == after_screen_mode(old(self)@, sm),
            final(self).static_items() == old(self).static_items(),
    {
        // The implied erase carries its size, so it does not depend on the
        // mode; after it the erase size, not the mode, shapes the screen.
        self.handle_erase(
            Erase {
                logical_rows: Some(sm.rows),
                logical_cols: Some(sm.columns),
                fg: None,
                bg: None,
            },
        );
        self.screen_mode = sm;
        proof {
            assert(oia_slots_ok(self@.oia));
            assert(settings_unique(self@.settings));
            assert(attrs_valid(self@.screen));
            assert(self@.shaped());
            assert(self@ == after_screen_mode(old(self)@, sm));
        }
    }

    /// Scrolls up by one row.
    fn handle_scroll(&mut self, sc: Scroll)
        requires
            old(self).wf(),
        ensures
            final(self).wf(),
            final(self)@ == after_scroll(old(self)@, sc),
            final(self).static_items() == old(self).static_items(),
    {
        if self.screen.len() == 0 {
            return ;
        }
        let fg = match sc.fg {
            Some(c) => c,
            None => match self.erase.fg {
                Some(c) => c,
                None => Color::Blue,
            },
        };
        let bg = match sc.bg {
            Some(c) => c,
            None => match self.erase.bg {
                Some(c) => c,
                None => Color::NeutralBlack,
            },
        };
        let cols = self.screen[0].len();
        let line = blank_line(cols, fg, bg);
        let ghost old_screen = self@.screen;
        self.screen.remove(0);
        self.screen.push(line);
        proof {
            lemma_blank_valid(1, cols as nat, fg, bg);
            assert(self@.screen =~= old_screen.drop_first().push(blank_row(cols as nat, fg, bg)));
            assert forall|i: int, j: int|
                0 <= i < self@.screen.len() && 0 <= j < self@.screen[i].len() implies valid_attr(
                #[trigger] self@.screen[i][j].attr,
            ) by {
                if i < old_screen.len() - 1 {
                    assert(self@.screen[i] == old_screen[i + 1]);
                }
            }
            assert forall|i: int| 0 <= i < self@.screen.len() implies #[trigger] self@.screen[i].len()
                == self@.cols() by {
                if i < old_screen.len() - 1 {
                    assert(self@.screen[i] == old_screen[i + 1]);
                } else {
                    assert(old_screen[0].len() == old(self)@.cols());
                }
            }
            assert(oia_slots_ok(self@.oia));
            assert(settings_unique(self@.settings));
            assert(self.static_items() == old(self).static_items());
        }
    }

    /// Writes an OIA field into its slot and the flattened area.
    fn handle_oia(&mut self, f: &OiaField)
        requires
            old(self).wf(),
        ensures
            final(self).wf(),
            final(self)@ == after_oia(old(self)@, *f),
            final(self).static_items() == old(self).static_items(),
    {
        let idx = f.field_name().index();
        self.oia.set(idx, Some(f.clone()));
        self.oia_tracker.notice(f.clone());
        proof {
            assert(self@ == after_oia(old(self)@, *f));
            assert(oia_slots_ok(self@.oia));
            assert(settings_unique(self@.settings));
            assert(attrs_valid(self@.screen));
            assert(self.static_items() == old(self).static_items());
        }
    }

    /// Inserts a setting, or replaces the one of the same name.
    fn handle_setting(&mut self, s: &Setting)
        requires
            old(self).wf(),
        ensures
            final(self).wf(),
            final(self)@ == after_setting(old(self)@, *s),
            final(self).static_items() == old(self).static_items(),
    {
        proof {
            lemma_setting_pos(self.settings@, s.name@);
            lemma_upsert_unique(self.settings@, *s);
        }
        let mut i: usize = 0;
        while i < self.settings.len()
            invariant
                *self == *old(self),
                old(self).wf(),
                i <= self.settings@.len(),
                forall|k: int| 0 <= k < i ==> #[trigger] self.settings@[k].name@ != s.name@,
            decreases self.settings@.len() - i,
        {
            if self.settings[i].name == s.name {
                self.settings.set(i, s.clone());
                proof {
                    lemma_setting_pos(old(self)@.settings, s.name@);
                    assert(old(self)@.settings[i as int].name@ == s.name@);
                    assert(setting_pos(old(self)@.settings, s.name@) == Some(i as nat));
                    assert(self@.settings =~= upserted(old(self)@.settings, *s));
                    assert(self@ == after_setting(old(self)@, *s));
                    lemma_upsert_unique(old(self)@.settings, *s);
                    assert(settings_unique(self@.settings));
                    assert(oia_slots_ok(self@.oia));
                    assert(attrs_valid(self@.screen));
                    assert(self.static_items() == old(self).static_items());
                }
                return ;
            }
            i += 1;
        }
        self.settings.push(s.clone());
        proof {
            assert(setting_pos(old(self)@.settings, s.name@) is None);
            assert(self@.settings =~= upserted(old(self)@.settings, *s));
            assert(self@ == after_setting(old(self)@, *s));
            lemma_upsert_unique(old(self)@.settings, *s);
            assert(settings_unique(self@.settings));
            assert(oia_slots_ok(self@.oia));
            assert(attrs_valid(self@.screen));
            assert(self.static_items() == old(self).static_items());
        }
    }
}

/// A copy of a row.
fn copy_row(row: &Vec<CharCell>) -> (r: Vec<CharCell>)
    ensures
        r@ == row@,
{
    let mut r: Vec<CharCell> = Vec::new();
    let mut j: usize = 0;
    while j < row.len()
        invariant
            j <= row@.len(),
            r@ == row@.take(j as int),
        decreases row@.len() - j,
    {
        r.push(row[j]);
        j += 1;
        assert(r@ =~= row@.take(j as int));
    }
    assert(row@.take(j as int) =~= row@);
    r
}

impl Tracker {
    /// Applies the row changes of a screen update and takes its cursor.
    fn handle_screen(&mut self, s: &Screen)
        requires
            old(self).wf(),
        ensures
            final(self).wf(),
            final(self)@ == after_screen(old(self)@, *s),
            final(self).static_items() == old(self).static_items(),
    {
        if let Some(c) = s.cursor {
            self.cursor = c;
        }
        let ghost cursor = self.cursor;
        proof {
            assert(oia_slots_ok(self@.oia));
            assert(settings_unique(self@.settings));
            assert(attrs_valid(self@.screen));
            assert(s.rows@.take(0) =~= Seq::<Row>::empty());
            assert(self.static_items() == old(self).static_items());
            assert(self.wf());
        }
        let mut k: usize = 0;
        while k < s.rows.len()
            invariant
                k <= s.rows@.len(),
                self.wf(),
                self.static_items() == old(self).static_items(),
                self@ == (TrackerView {
                    screen: apply_rows(old(self)@.screen, s.rows@.take(k as int)),
                    cursor: cursor,
                    ..old(self)@
                }),
                cursor == (match s.cursor {
                    Some(c) => c,
                    None => old(self)@.cursor,
                }),
            decreases s.rows@.len() - k,
        {
            let row = &s.rows[k];
            let ghost before = self@.screen;
            assert(s.rows@.take(k + 1).drop_last() =~= s.rows@.take(k as int));
            if 1 <= row.row && (row.row as usize) <= self.screen.len() {
                let idx = row.row as usize - 1;
                let mut line = copy_row(&self.screen[idx]);
                assert forall|j: int| 0 <= j < line@.len() implies valid_attr(#[trigger] line@[j].attr) by {
                    assert(line@[j] == before[idx as int][j]);
                }
                let mut m: usize = 0;
                while m < row.changes.len()
                    invariant
                        m <= row.changes@.len(),
                        idx < before.len(),
                        line@ == apply_changes(before[idx as int], row.changes@.take(m as int)),
                        forall|j: int| 0 <= j < line@.len() ==> valid_attr(#[trigger] line@[j].attr),
                    decreases row.changes@.len() - m,
                {
                    assert(row.changes@.take(m + 1).drop_last() =~= row.changes@.take(m as int));
                    line = changed_row(&line, &row.changes[m]);
                    m += 1;
                }
                assert(row.changes@.take(m as int) =~= row.changes@);
                self.screen.set(idx, line);
                proof {
                    lemma_apply_changes_len(before[idx as int], row.changes@);
                    assert forall|i: int| 0 <= i < self@.screen.len() implies #[trigger] self@.screen[i].len() <= 255 by {
                        if i != idx {
                            assert(self@.screen[i] == before[i]);
                        }
                    }
                    assert forall|i: int| 0 <= i < self@.screen.len() implies #[trigger] self@.screen[i].len()
                        == self@.cols() by {
                        if i != idx {
                            assert(self@.screen[i] == before[i]);
                        }
                    }
                    assert(grid_view(self.screen@) =~= before.update(idx as int, line@));
                    assert forall|i: int, j: int|
                        0 <= i < self@.screen.len() && 0 <= j < self@.screen[i].len() implies valid_attr(
                        #[trigger] self@.screen[i][j].attr,
                    ) by {
                        if i != idx {
                            assert(self@.screen[i] == before[i]);
                        }
                    }
                }
            }
            k += 1;
            proof {
                assert(oia_slots_ok(self@.oia));
                assert(settings_unique(self@.settings));
                assert(self@ == (TrackerView {
                    screen: apply_rows(old(self)@.screen, s.rows@.take(k as int)),
                    cursor: cursor,
                    ..old(self)@
                }));
            }
        }
        assert(s.rows@.take(k as int) =~= s.rows@);
    }

    /// Folds the elements of `Initialize`: static ones are kept for
    /// snapshots, the others act as the indication of the same name.
    fn handle_init(&mut self, items: &Vec<InitializeIndication>)
        requires
            old(self).wf(),
        ensures
            final(self).wf(),
            final(self)@ == after_init(old(self)@, items@),
            appended_copies(old(self).static_items(), final(self).static_items(), statics_of(items@)),
    {
        let mut k: usize = 0;
        while k < items.len()
            invariant
                k <= items@.len(),
                self.wf(),
                self@ == after_init(old(self)@, items@.take(k as int)),
                appended_copies(
                    old(self).static_items(),
                    self.static_items(),
                    statics_of(items@.take(k as int)),
                ),
            decreases items@.len() - k,
        {
            let ghost prev_statics = self.static_items();
            assert(items@.take(k + 1).drop_last() =~= items@.take(k as int));
            assert(items@.take(k + 1).last() == items@[k as int]);
            match &items[k] {
                InitializeIndication::Thumb(th) => {
                    self.thumb = *th;
                    proof {
                        assert(oia_slots_ok(self@.oia));
                        assert(settings_unique(self@.settings));
                        assert(attrs_valid(self@.screen));
                    }
                },
                InitializeIndication::Setting(st) => self.handle_setting(st),
                InitializeIndication::ScreenMode(sm) => self.handle_screen_mode(*sm),
                InitializeIndication::Oia(f) => self.handle_oia(f),
                InitializeIndication::Erase(e) => {
                    self.handle_erase(*e);
                },
                InitializeIndication::Connection(c) => {
                    self.connection = c.clone();
                    proof {
                        assert(oia_slots_ok(self@.oia));
                        assert(settings_unique(self@.settings));
                        assert(attrs_valid(self@.screen));
                    }
                },
                _ => {
                    let copy = items[k].clone();
                    proof {
                        lemma_copy_kind(items@[k as int], copy);
                    }
                    self.static_init.push(copy);
                    proof {
                        assert(oia_slots_ok(self@.oia));
                        assert(settings_unique(self@.settings));
                        assert(attrs_valid(self@.screen));
                    }
                },
            }
            k += 1;
            proof {
                let added = statics_of(items@.take(k as int));
                let o = old(self).static_items();
                assert(self.static_items().len() == o.len() + added.len());
                assert forall|i: int| 0 <= i < added.len() implies init_copy(
                    #[trigger] added[i],
                    self.static_items()[o.len() + i],
                ) by {
                    let prev_added = statics_of(items@.take(k - 1));
                    if i < prev_added.len() {
                        assert(added[i] == prev_added[i]);
                        assert(self.static_items()[o.len() + i] == prev_statics[o.len() + i]);
                    }
                }
                assert forall|i: int| 0 <= i < o.len() implies #[trigger] self.static_items()[i] == o[i] by {
                    assert(self.static_items()[i] == prev_statics[i]);
                }
                assert forall|i: int| 0 <= i < self.static_items().len() implies is_static_init(
                    #[trigger] self.static_items()[i],
                ) by {
                    if i < prev_statics.len() {
                        assert(self.static_items()[i] == prev_statics[i]);
                    }
                }
            }
        }
        assert(items@.take(k as int) =~= items@);
    }

    /// Folds an indication into the state and says where it goes. An erase
    /// is completed in place with the merged defaults, so that clients see
    /// what the tracker applied.
    pub fn handle_indication(&mut self, indication: &mut Indication) -> (r: Disposition)
        requires
            old(self).wf(),
        ensures
            final(self).wf(),
            final(self)@ == after(old(self)@, *old(indication)),
            *final(indication) == passed_on(old(self)@, *old(indication)),
            r == disposition_of(*old(indication)),
            match *old(indication) {
                Indication::Initialize(items) => appended_copies(
                    old(self).static_items(),
                    final(self).static_items(),
                    statics_of(items@),
                ),
                _ => final(self).static_items() == old(self).static_items(),
            },
    {
        match indication {
            Indication::Connection(conn) => {
                self.connection = conn.clone();
            },
            Indication::Erase(erase) => {
                let m = self.handle_erase(*erase);
                *erase = m;
            },
            Indication::Formatted { state } => {
                self.formatted = *state;
            },
            Indication::Initialize(init) => {
                self.handle_init(init);
            },
            Indication::Oia(oia) => {
                self.handle_oia(oia);
            },
            Indication::Screen(screen) => {
                self.handle_screen(screen);
            },
            Indication::ScreenMode(mode) => {
                self.handle_screen_mode(*mode);
            },
            Indication::Scroll(scroll) => {
                self.handle_scroll(*scroll);
            },
            Indication::Setting(setting) => {
                self.handle_setting(setting);
            },
            Indication::Thumb(thumb) => {
                self.thumb = *thumb;
            },
            Indication::TraceFile(tf) => {
                self.trace_file = clone_opt_string(&tf.name);
            },
            Indication::Tls(tls) => {
                self.tls = Some(tls.clone());
            },
            Indication::RunResult(rr) => {
                return match &rr.r_tag {
                    Some(tag) => Disposition::Direct(tag.clone()),
                    None => Disposition::Drop,
                };
            },
            _ => {},
        }
        proof {
            assert(oia_slots_ok(self@.oia));
            assert(settings_unique(self@.settings));
            assert(attrs_valid(self@.screen));
            if !(*old(indication) is Initialize) {
                assert(self.static_items() == old(self).static_items());
            }
        }
        Disposition::Broadcast
    }
}

/// The first index at or after `k` whose cell does not have attribute `a`,
/// or the row's length.
pub open spec fn run_end(row: Seq<CharCell>, a: u32, k: nat) -> nat
    decreases row.len() - k,
{
    if k >= row.len() || row[k as int].attr != a {
        k
    } else {
        run_end(row, a, k + 1)
    }
}

/// The characters of a range of cells.
pub open spec fn chars_of(cells: Seq<CharCell>) -> Seq<char> {
    cells.map_values(|c: CharCell| c.ch)
}

/// `c` writes the cells `start..end` of `row` as one text change in the
/// attribute of the first of them.
pub open spec fn is_run_change(c: Change, row: Seq<CharCell>, start: nat, end: nat) -> bool {
    let a = row[start as int].attr;
    &&& c.column as nat == start + 1
    &&& c.change matches CountOrText::Text(t) && t@ == chars_of(row.subrange(start as int, end as int))
    &&& c.fg == Some(color_of_ord(attr_fg(a)))
    &&& c.bg == Some(color_of_ord(attr_bg(a)))
    &&& c.gr matches Some(g) && g@ == attr_gr(a)
}

/// `cs` encodes the cells of `row` from `start` on as runs of equal
/// attributes, one text change per run, left to right.
pub open spec fn rle_from(row: Seq<CharCell>, cs: Seq<Change>, start: nat) -> bool
    decreases row.len() - start,
{
    if start >= row.len() {
        cs.len() == 0
    } else {
        let e = run_end(row, row[start as int].attr, start + 1);
        if e <= start || e > row.len() {
            false
        } else {
            &&& cs.len() > 0
            &&& is_run_change(cs[0], row, start, e)
            &&& rle_from(row, cs.drop_first(), e)
        }
    }
}

/// The OIA values that are present, in slot order.
pub open spec fn present_oia(slots: Seq<Option<OiaField>>) -> Seq<OiaField>
    decreases slots.len(),
{
    if slots.len() == 0 {
        seq![]
    } else {
        match slots.last() {
            Some(f) => present_oia(slots.drop_last()).push(f),
            None => present_oia(slots.drop_last()),
        }
    }
}

/// `scr` re-serializes the screen of `t`: one row per screen row, in order,
/// run-length encoded, with the cursor when it is enabled.
pub open spec fn is_screen_snapshot(scr: Screen, t: TrackerView) -> bool {
    &&& scr.rows@.len() == t.screen.len()
    &&& forall|i: int|
        0 <= i < t.screen.len() ==> (#[trigger] scr.rows@[i]).row == i + 1 && rle_from(
            t.screen[i],
            scr.rows@[i].changes@,
            0,
        )
    &&& scr.cursor == (if t.cursor.enabled {
        Some(t.cursor)
    } else {
        None
    })
}

/// `items` is the payload of a snapshot's `Initialize`: copies of the static
/// elements, then the screen mode, erase defaults, thumb, every OIA value,
/// every setting, and the TLS state when known.
pub open spec fn is_init_payload(
    t: TrackerView,
    statics: Seq<InitializeIndication>,
    items: Seq<InitializeIndication>,
) -> bool {
    let n = statics.len();
    let oias = present_oia(t.oia);
    let m = n + 3 + oias.len();
    &&& items.len() == m + t.settings.len() + (if t.tls is Some {
        1int
    } else {
        0int
    })
    &&& forall|i: int| 0 <= i < n ==> init_copy(#[trigger] statics[i], items[i])
    &&& items[n as int] == InitializeIndication::ScreenMode(t.screen_mode)
    &&& items[n + 1int] == InitializeIndication::Erase(t.erase)
    &&& items[n + 2int] == InitializeIndication::Thumb(t.thumb)
    &&& forall|i: int| 0 <= i < oias.len() ==> items[n + 3 + i] == InitializeIndication::Oia(#[trigger] oias[i])
    &&& forall|i: int|
        0 <= i < t.settings.len() ==> items[m + i] == InitializeIndication::Setting(
            #[trigger] t.settings[i],
        )
    &&& t.tls is Some ==> items[items.len() - 1] == InitializeIndication::Tls(t.tls->0)
}

/// `s` is the resync snapshot of `t`: `Initialize`, the connection, the
/// screen, the formatting state, and the trace file when known.
pub open spec fn is_snapshot(
    t: TrackerView,
    statics: Seq<InitializeIndication>,
    s: Seq<Indication>,
) -> bool {
    &&& s.len() == (if t.trace_file is Some {
        5int
    } else {
        4int
    })
    &&& s[0] matches Indication::Initialize(items) && is_init_payload(t, statics, items@)
    &&& s[1] == Indication::Connection(t.connection)
    &&& s[2] matches Indication::Screen(scr) && is_screen_snapshot(scr, t)
    &&& s[3] == Indication::Formatted { state: t.formatted }
    &&& t.trace_file is Some ==> s[4] == Indication::TraceFile(TraceFile { name: t.trace_file })
}

/// Relies on `String::push`: the character is appended.
#[verifier::external_body]
pub(crate) fn push_char(s: &mut String, c: char)
    ensures
        final(s)@ == old(s)@.push(c),
{
    s.push(c)
}

/// The end of a run.
proof fn lemma_run_end(row: Seq<CharCell>, a: u32, k: nat)
    requires
        k <= row.len(),
    ensures
        k <= run_end(row, a, k) <= row.len(),
        forall|j: int| k <= j < run_end(row, a, k) ==> #[trigger] row[j].attr == a,
        run_end(row, a, k) < row.len() ==> row[run_end(row, a, k) as int].attr != a,
    decreases row.len() - k,
{
    if k < row.len() && row[k as int].attr == a {
        lemma_run_end(row, a, k + 1);
    }
}

/// Encodes a row as runs of equal attributes, one text change per run.
pub fn format_row(row: &Vec<CharCell>) -> (r: Vec<Change>)
    requires
        row@.len() <= 255,
    ensures
        rle_from(row@, r@, 0),
{
    let n = row.len();
    let mut result: Vec<Change> = Vec::new();
    let mut start: usize = 0;
    while start < n
        invariant
            n == row@.len(),
            n <= 255,
            start <= n,
            forall|rest: Seq<Change>|
                rle_from(row@, rest, start as nat) ==> #[trigger] rle_from(
                    row@,
                    result@ + rest,
                    0,
                ),
        decreases n - start,
    {
        let a = row[start].attr;
        let mut text = String::new();
        push_char(&mut text, row[start].ch);
        let mut e: usize = start + 1;
        assert(chars_of(row@.subrange(start as int, e as int)) =~= seq![row@[start as int].ch]);
        while e < n && row[e].attr == a
            invariant
                n == row@.len(),
                start < e <= n,
                a == row@[start as int].attr,
                text@ == chars_of(row@.subrange(start as int, e as int)),
                run_end(row@, a, (start + 1) as nat) == run_end(row@, a, e as nat),
            decreases n - e,
        {
            push_char(&mut text, row[e].ch);
            e += 1;
            assert(chars_of(row@.subrange(start as int, e as int)) =~= chars_of(
                row@.subrange(start as int, (e - 1) as int),
            ).push(row@[e - 1].ch));
        }
        let c = Change {
            column: (start + 1) as u8,
            change: CountOrText::Text(text),
            fg: Some(a.c_fg()),
            bg: Some(a.c_bg()),
            gr: Some(a.c_gr()),
        };
        proof {
            assert forall|rest: Seq<Change>| rle_from(row@, rest, e as nat) implies #[trigger] rle_from(
                row@,
                result@.push(c) + rest,
                0,
            ) by {
                let r2 = seq![c] + rest;
                assert(r2.drop_first() =~= rest);
                assert(rle_from(row@, r2, start as nat));
                assert(result@.push(c) + rest =~= result@ + r2);
            }
        }
        result.push(c);
        start = e;
    }
    proof {
        assert(rle_from(row@, Seq::<Change>::empty(), start as nat));
        assert(rle_from(row@, result@ + Seq::<Change>::empty(), 0));
        assert(result@ + Seq::<Change>::empty() =~= result@);
    }
    result
}

impl Tracker {
    /// The screen re-serialized as one run-length encoded row update per
    /// row, with the cursor when it is enabled.
    fn screen_snapshot(&self) -> (r: Screen)
        requires
            self.wf(),
        ensures
            is_screen_snapshot(r, self@),
    {
        let mut rows: Vec<Row> = Vec::new();
        let mut i: usize = 0;
        while i < self.screen.len()
            invariant
                self.wf(),
                i <= self@.screen.len(),
                rows@.len() == i,
                forall|k: int|
                    0 <= k < i ==> (#[trigger] rows@[k]).row == k + 1 && rle_from(
                        self@.screen[k],
                        rows@[k].changes@,
                        0,
                    ),
            decreases self@.screen.len() - i,
        {
            assert(self@.screen[i as int] == self.screen@[i as int]@);
            let changes = format_row(&self.screen[i]);
            rows.push(Row { row: (i + 1) as u8, changes });
            i += 1;
        }
        let cursor = if self.cursor.enabled {
            Some(self.cursor)
        } else {
            None
        };
        Screen { cursor, rows }
    }

    /// The resync snapshot: replayed into a fresh tracker, it rebuilds this
    /// one's screen, OIA, connection, cursor, formatting state and settings.
    pub fn get_init_indication(&self) -> (r: Vec<Indication>)
        requires
            self.wf(),
        ensures
            is_snapshot(self@, self.static_items(), r@),
    {
        let mut contents: Vec<InitializeIndication> = Vec::new();
        let mut i: usize = 0;
        while i < self.static_init.len()
            invariant
                i <= self.static_items().len(),
                contents@.len() == i,
                forall|k: int| 0 <= k < i ==> init_copy(#[trigger] self.static_items()[k], contents@[k]),
            decreases self.static_items().len() - i,
        {
            contents.push(self.static_init[i].clone());
            i += 1;
        }
        let n = contents.len();
        contents.push(InitializeIndication::ScreenMode(self.screen_mode));
        contents.push(InitializeIndication::Erase(self.erase));
        contents.push(InitializeIndication::Thumb(self.thumb));
        let mut k: usize = 0;
        while k < self.oia.len()
            invariant
                k <= self@.oia.len(),
                n == self.static_items().len(),
                contents@.len() == n + 3 + present_oia(self@.oia.take(k as int)).len(),
                forall|m: int| 0 <= m < n ==> init_copy(#[trigger] self.static_items()[m], contents@[m]),
                contents@[n as int] == InitializeIndication::ScreenMode(self.screen_mode),
                contents@[n + 1int] == InitializeIndication::Erase(self.erase),
                contents@[n + 2int] == InitializeIndication::Thumb(self.thumb),
                forall|m: int|
                    0 <= m < present_oia(self@.oia.take(k as int)).len() ==> contents@[n + 3 + m]
                        == InitializeIndication::Oia(
                        #[trigger] present_oia(self@.oia.take(k as int))[m],
                    ),
            decreases self@.oia.len() - k,
        {
            let ghost before = contents@;
            let ghost prev = present_oia(self@.oia.take(k as int));
            assert(self@.oia.take(k + 1).drop_last() =~= self@.oia.take(k as int));
            if let Some(f) = &self.oia[k] {
                contents.push(InitializeIndication::Oia(f.clone()));
                proof {
                    let cur = present_oia(self@.oia.take(k + 1));
                    assert(cur == prev.push(*f));
                    assert forall|m: int| 0 <= m < cur.len() implies contents@[n + 3 + m]
                        == InitializeIndication::Oia(#[trigger] cur[m]) by {
                        if m < prev.len() {
                            assert(cur[m] == prev[m]);
                            assert(contents@[n + 3 + m] == before[n + 3 + m]);
                        }
                    }
                }
            }
            k += 1;
        }
        assert(self@.oia.take(k as int) =~= self@.oia);
        let m0 = contents.len();
        let mut j: usize = 0;
        while j < self.settings.len()
            invariant
                j <= self@.settings.len(),
                n == self.static_items().len(),
                m0 == n + 3 + present_oia(self@.oia).len(),
                contents@.len() == m0 + j,
                forall|m: int| 0 <= m < n ==> init_copy(#[trigger] self.static_items()[m], contents@[m]),
                contents@[n as int] == InitializeIndication::ScreenMode(self.screen_mode),
                contents@[n + 1int] == InitializeIndication::Erase(self.erase),
                contents@[n + 2int] == InitializeIndication::Thumb(self.thumb),
                forall|m: int|
                    0 <= m < present_oia(self@.oia).len() ==> contents@[n + 3 + m]
                        == InitializeIndication::Oia(#[trigger] present_oia(self@.oia)[m]),
                forall|m: int|
                    0 <= m < j ==> contents@[m0 + m] == InitializeIndication::Setting(
                        #[trigger] self@.settings[m],
                    ),
            decreases self@.settings.len() - j,
        {
            contents.push(InitializeIndication::Setting(self.settings[j].clone()));
            j += 1;
        }
        if let Some(tls) = &self.tls {
            contents.push(InitializeIndication::Tls(tls.clone()));
        }
        let ghost items = contents@;
        let mut result: Vec<Indication> = Vec::new();
        result.push(Indication::Initialize(contents));
        result.push(Indication::Connection(self.connection.clone()));
        result.push(Indication::Screen(self.screen_snapshot()));
        result.push(Indication::Formatted { state: self.formatted });
        if let Some(trace_file) = &self.trace_file {
            result.push(Indication::TraceFile(TraceFile { name: Some(trace_file.clone()) }));
        }
        proof {
            assert(is_init_payload(self@, self.static_items(), items));
        }
        result
    }

    /// The screen, row by row.
    pub fn get_screen(&self) -> (r: &Vec<Vec<CharCell>>)
        ensures
            grid_view(r@) == self@.screen,
    {
        &self.screen
    }

    /// The OIA values, one slot per field name in declaration order.
    pub fn get_oia(&self) -> (r: &Vec<Option<OiaField>>)
        ensures
            r@ == self@.oia,
    {
        &self.oia
    }

    /// The cursor.
    pub fn get_cursor(&self) -> (r: &Cursor)
        ensures
            *r == self@.cursor,
    {
        &self.cursor
    }

    /// The flattened OIA.
    pub fn get_oia_state(&self) -> (r: &OiaTracker)
        ensures
            *r == self@.oia_state,
    {
        &self.oia_tracker
    }

    /// The connection state.
    pub fn get_connection(&self) -> (r: &Connection)
        ensures
            *r == self@.connection,
    {
        &self.connection
    }
}

impl Default for Tracker {
    fn default() -> (r: Tracker)
        ensures
            r@ == initial_view(),
            r.wf(),
            r.static_items().len() == 0,
    {
        let mut oia: Vec<Option<OiaField>> = Vec::new();
        let mut i: usize = 0;
        while i < OIA_FIELD_COUNT
            invariant
                i <= OIA_FIELD_COUNT,
                oia@ == Seq::new(i as nat, |k: int| None::<OiaField>),
            decreases OIA_FIELD_COUNT - i,
        {
            oia.push(None);
            i += 1;
            assert(oia@ =~= Seq::new(i as nat, |k: int| None::<OiaField>));
        }
        let screen = blank_grid(43, 80, Color::NeutralWhite, Color::NeutralBlack);
        let r = Tracker {
            screen,
            oia,
            screen_mode: ScreenMode {
                model: 4,
                rows: 43,
                columns: 80,
                color: true,
                oversize: false,
                extended: true,
            },
            erase: Erase { logical_rows: None, logical_cols: None, fg: None, bg: None },
            thumb: Thumb { top_bits: 0, shown_bits: 0, saved: 0, screen: 0, back: 0 },
            settings: Vec::new(),
            cursor: Cursor { enabled: false, row: None, column: None },
            connection: Connection { state: ConnectionState::NotConnected, host: None, cause: None },
            formatted: false,
            trace_file: None,
            tls: None,
            oia_tracker: OiaTracker::default(),
            static_init: Vec::new(),
        };
        proof {
            lemma_blank_valid(43, 80, Color::NeutralWhite, Color::NeutralBlack);
            assert(r@ == initial_view());
            assert(attrs_valid(r@.screen));
            assert(r@.shaped());
        }
        r
    }
}

/// Applying a change and then a list equals applying the list with the
/// change in front.
pub proof fn lemma_apply_changes_prepend(base: Seq<CharCell>, c: Change, rest: Seq<Change>)
    ensures
        apply_changes(base, seq![c] + rest) == apply_changes(apply_change(base, c), rest),
    decreases rest.len(),
{
    let s = seq![c] + rest;
    if rest.len() == 0 {
        assert(s =~= seq![c]);
        assert(s.drop_last() =~= Seq::<Change>::empty());
        assert(apply_changes(base, s.drop_last()) == base);
        assert(s.last() == c);
        assert(apply_changes(base, s) == apply_change(base, c));
        assert(apply_changes(apply_change(base, c), rest) == apply_change(base, c));
    } else {
        assert(s.drop_last() =~= seq![c] + rest.drop_last());
        assert(s.last() == rest.last());
        lemma_apply_changes_prepend(base, c, rest.drop_last());
    }
}

/// The encoding of a row from `start` on, applied to a row that already
/// agrees before `start`, rebuilds the row.
proof fn lemma_rle_from(row: Seq<CharCell>, cs: Seq<Change>, start: nat, base: Seq<CharCell>)
    requires
        rle_from(row, cs, start),
        start <= row.len(),
        base.len() == row.len(),
        forall|j: int| 0 <= j < start ==> #[trigger] base[j] == row[j],
        forall|j: int| 0 <= j < row.len() ==> valid_attr(#[trigger] row[j].attr),
        forall|j: int| 0 <= j < base.len() ==> valid_attr(#[trigger] base[j].attr),
    ensures
        apply_changes(base, cs) == row,
    decreases row.len() - start,
{
    if start >= row.len() {
        assert(base =~= row);
    } else {
        let a = row[start as int].attr;
        let e = run_end(row, a, start + 1);
        lemma_run_end(row, a, start + 1);
        let c = cs[0];
        let rest = cs.drop_first();
        assert(cs =~= seq![c] + rest);
        lemma_apply_changes_prepend(base, c, rest);
        let next = apply_change(base, c);
        lemma_attr_fields(a);
        lemma_color_field(attr_fg(a));
        lemma_color_field(attr_bg(a));
        assert forall|j: int| 0 <= j < e implies #[trigger] next[j] == row[j] by {
            if j >= start {
                assert(row[j].attr == a);
                lemma_overwrite(base[j].attr, a);
                let t = c.change->Text_0;
                assert(t@[j - start] == chars_of(row.subrange(start as int, e as int))[j - start]);
            }
        }
        assert forall|j: int| 0 <= j < next.len() implies valid_attr(#[trigger] next[j].attr) by {
            if j >= e {
                assert(next[j] == base[j]);
            } else {
                assert(next[j] == row[j]);
            }
        }
        lemma_rle_from(row, rest, e, next);
    }
}

/// A snapshot row, applied in order to any valid row of the same length
/// (such as a blank row in the erase colors), rebuilds the row exactly.
pub proof fn lemma_rle_rebuilds_row(row: Seq<CharCell>, cs: Seq<Change>, base: Seq<CharCell>)
    requires
        rle_from(row, cs, 0),
        base.len() == row.len(),
        forall|j: int| 0 <= j < row.len() ==> valid_attr(#[trigger] row[j].attr),
        forall|j: int| 0 <= j < base.len() ==> valid_attr(#[trigger] base[j].attr),
    ensures
        apply_changes(base, cs) == row,
{
    lemma_rle_from(row, cs, 0, base);
}

/// The `Oia` elements for a list of values.
pub open spec fn oia_items(fs: Seq<OiaField>) -> Seq<InitializeIndication> {
    fs.map_values(|f: OiaField| InitializeIndication::Oia(f))
}

/// The `Setting` elements for a list of settings.
pub open spec fn setting_items(ss: Seq<Setting>) -> Seq<InitializeIndication> {
    ss.map_values(|s: Setting| InitializeIndication::Setting(s))
}

/// Folding a concatenation folds its parts in turn.
proof fn lemma_after_init_concat(
    t: TrackerView,
    a: Seq<InitializeIndication>,
    b: Seq<InitializeIndication>,
)
    ensures
        after_init(t, a + b) == after_init(after_init(t, a), b),
    decreases b.len(),
{
    if b.len() == 0 {
        assert(a + b =~= a);
    } else {
        assert((a + b).drop_last() =~= a + b.drop_last());
        assert((a + b).last() == b.last());
        lemma_after_init_concat(t, a, b.drop_last());
    }
}

/// Static elements leave the state as it is.
proof fn lemma_after_init_statics(t: TrackerView, a: Seq<InitializeIndication>)
    requires
        forall|i: int| 0 <= i < a.len() ==> is_static_init(#[trigger] a[i]),
    ensures
        after_init(t, a) == t,
    decreases a.len(),
{
    if a.len() > 0 {
        assert(is_static_init(a[a.len() - 1]));
        lemma_after_init_statics(t, a.drop_last());
    }
}

/// The OIA values present in the first `k` slots, written into empty slots,
/// fill exactly those slots.
proof fn lemma_oia_replay(u: TrackerView, slots: Seq<Option<OiaField>>, k: nat)
    requires
        oia_slots_ok(slots),
        u.oia == Seq::new(OIA_FIELD_COUNT as nat, |i: int| None::<OiaField>),
        k <= slots.len(),
    ensures
        after_init(u, oia_items(present_oia(slots.take(k as int)))) == (TrackerView {
            oia: Seq::new(
                OIA_FIELD_COUNT as nat,
                |i: int|
                    if i < k {
                        slots[i]
                    } else {
                        None
                    },
            ),
            oia_state: after_init(u, oia_items(present_oia(slots.take(k as int)))).oia_state,
            ..u
        }),
    decreases k,
{
    let items = oia_items(present_oia(slots.take(k as int)));
    if k == 0 {
        assert(slots.take(0) =~= Seq::<Option<OiaField>>::empty());
        assert(items =~= Seq::<InitializeIndication>::empty());
        assert(u.oia =~= Seq::new(OIA_FIELD_COUNT as nat, |i: int| if i < 0 { slots[i] } else { None }));
    } else {
        let j = (k - 1) as nat;
        lemma_oia_replay(u, slots, j);
        let prev_items = oia_items(present_oia(slots.take(j as int)));
        assert(slots.take(k as int).drop_last() =~= slots.take(j as int));
        assert(slots.take(k as int).last() == slots[j as int]);
        let prev = after_init(u, prev_items);
        match slots[j as int] {
            Some(f) => {
                assert(present_oia(slots.take(k as int)) == present_oia(slots.take(j as int)).push(f));
                assert(items =~= prev_items.push(InitializeIndication::Oia(f)));
                assert(items.drop_last() =~= prev_items);
                assert(oia_name_index(oia_field_name(f)) == j);
                assert(after_init(u, items).oia =~= Seq::new(
                    OIA_FIELD_COUNT as nat,
                    |i: int|
                        if i < k {
                            slots[i]
                        } else {
                            None
                        },
                ));
            },
            None => {
                assert(present_oia(slots.take(k as int)) == present_oia(slots.take(j as int)));
                assert(after_init(u, items).oia =~= Seq::new(
                    OIA_FIELD_COUNT as nat,
                    |i: int|
                        if i < k {
                            slots[i]
                        } else {
                            None
                        },
                ));
            },
        }
    }
}

/// Unique settings, upserted in order into no settings, are kept as they
/// are.
proof fn lemma_settings_replay(u: TrackerView, settings: Seq<Setting>, k: nat)
    requires
        settings_unique(settings),
        u.settings == Seq::<Setting>::empty(),
        k <= settings.len(),
    ensures
        after_init(u, setting_items(settings.take(k as int))) == (TrackerView {
            settings: settings.take(k as int),
            ..u
        }),
    decreases k,
{
    let items = setting_items(settings.take(k as int));
    if k == 0 {
        assert(items =~= Seq::<InitializeIndication>::empty());
        assert(settings.take(0) =~= Seq::<Setting>::empty());
    } else {
        let j = (k - 1) as nat;
        lemma_settings_replay(u, settings, j);
        let pre = settings.take(j as int);
        assert(items.drop_last() =~= setting_items(pre));
        assert(items.last() == InitializeIndication::Setting(settings[j as int]));
        assert(settings_unique(pre)) by {
            assert forall|a: int, b: int| 0 <= a < b < pre.len() implies #[trigger] pre[a].name@
                != #[trigger] pre[b].name@ by {
                assert(pre[a] == settings[a] && pre[b] == settings[b]);
            }
        }
        lemma_setting_pos(pre, settings[j as int].name@);
        assert forall|m: int| 0 <= m < pre.len() implies #[trigger] pre[m].name@ != settings[j as int].name@ by {
            assert(pre[m] == settings[m]);
        }
        assert(setting_pos(pre, settings[j as int].name@) is None);
        assert(pre.push(settings[j as int]) =~= settings.take(k as int));
    }
}

/// Snapshot rows, applied in order to a valid screen of the same shape,
/// rebuild the screen.
proof fn lemma_rows_replay(
    screen: Seq<Seq<CharCell>>,
    rows: Seq<Row>,
    base: Seq<Seq<CharCell>>,
    k: nat,
)
    requires
        rows.len() == screen.len(),
        base.len() == screen.len(),
        k <= rows.len(),
        attrs_valid(screen),
        attrs_valid(base),
        forall|i: int| 0 <= i < screen.len() ==> #[trigger] base[i].len() == screen[i].len(),
        forall|i: int|
            0 <= i < screen.len() ==> (#[trigger] rows[i]).row == i + 1 && rle_from(
                screen[i],
                rows[i].changes@,
                0,
            ),
    ensures
        apply_rows(base, rows.take(k as int)) == Seq::new(
            screen.len(),
            |i: int|
                if i < k {
                    screen[i]
                } else {
                    base[i]
                },
        ),
    decreases k,
{
    if k == 0 {
        assert(rows.take(0) =~= Seq::<Row>::empty());
        assert(base =~= Seq::new(screen.len(), |i: int| if i < 0 { screen[i] } else { base[i] }));
    } else {
        let j = (k - 1) as nat;
        lemma_rows_replay(screen, rows, base, j);
        assert(rows.take(k as int).drop_last() =~= rows.take(j as int));
        assert(rows.take(k as int).last() == rows[j as int]);
        let r = rows[j as int];
        assert(r.row == j + 1);
        lemma_rle_rebuilds_row(screen[j as int], r.changes@, base[j as int]);
        assert(apply_rows(base, rows.take(k as int)) =~= Seq::new(
            screen.len(),
            |i: int|
                if i < k {
                    screen[i]
                } else {
                    base[i]
                },
        ));
    }
}

/// The erase defaults that replaying a snapshot's screen mode and erase
/// leaves in a fresh tracker.
pub open spec fn replayed_erase(t: TrackerView) -> Erase {
    merged_erase(after_screen_mode(initial_view(), t.screen_mode), t.erase)
}

/// The blank screen that replaying a snapshot's screen mode and erase
/// leaves in a fresh tracker.
pub open spec fn replayed_blank(t: TrackerView) -> Seq<Seq<CharCell>> {
    let m = replayed_erase(t);
    blank_screen(m.logical_rows->0 as nat, m.logical_cols->0 as nat, m.fg->0, m.bg->0)
}

/// The replayed blank screen has the shape of the tracker's screen.
proof fn lemma_replayed_shape(t: TrackerView)
    requires
        t.wf(),
    ensures
        replayed_erase(t).logical_rows->0 as nat == t.rows(),
        replayed_erase(t).logical_cols->0 as nat == t.cols(),
{
}

/// The fixed part of a snapshot's payload: screen mode, erase, thumb.
proof fn lemma_fixed_replay(t: TrackerView)
    ensures
        after_init(
            initial_view(),
            seq![
                InitializeIndication::ScreenMode(t.screen_mode),
                InitializeIndication::Erase(t.erase),
                InitializeIndication::Thumb(t.thumb),
            ],
        ) == (TrackerView {
            screen: replayed_blank(t),
            screen_mode: t.screen_mode,
            erase: replayed_erase(t),
            thumb: t.thumb,
            ..initial_view()
        }),
{
    let init = initial_view();
    let i_sm = InitializeIndication::ScreenMode(t.screen_mode);
    let i_e = InitializeIndication::Erase(t.erase);
    let i_th = InitializeIndication::Thumb(t.thumb);
    let p = seq![i_sm, i_e, i_th];
    assert(p.drop_last() =~= seq![i_sm, i_e]);
    assert(seq![i_sm, i_e].drop_last() =~= seq![i_sm]);
    assert(seq![i_sm].drop_last() =~= Seq::<InitializeIndication>::empty());
    let a1 = after_screen_mode(init, t.screen_mode);
    assert(seq![i_sm].last() == i_sm);
    assert(seq![i_sm, i_e].last() == i_e);
    assert(p.last() == i_th);
    assert(after_init(init, Seq::<InitializeIndication>::empty()) == init);
    assert(after_init(init, seq![i_sm]) == a1);
    assert(after_init(init, seq![i_sm, i_e]) == after_erase(a1, t.erase));
}

/// A snapshot's `Initialize` payload, replayed into a fresh tracker,
/// rebuilds the OIA and settings and blanks the screen at its size.
proof fn lemma_payload_replay(
    t: TrackerView,
    statics: Seq<InitializeIndication>,
    items: Seq<InitializeIndication>,
)
    requires
        t.wf(),
        t.tls is None,
        forall|i: int| 0 <= i < statics.len() ==> is_static_init(#[trigger] statics[i]),
        is_init_payload(t, statics, items),
    ensures
        after_init(initial_view(), items) == (TrackerView {
            screen: replayed_blank(t),
            screen_mode: t.screen_mode,
            erase: replayed_erase(t),
            thumb: t.thumb,
            oia: t.oia,
            settings: t.settings,
            oia_state: after_init(initial_view(), items).oia_state,
            ..initial_view()
        }),
{
    let init = initial_view();
    let n = statics.len();
    let oias = present_oia(t.oia);
    let m = n + 3 + oias.len();
    let p_static = items.take(n as int);
    let p_fixed = items.subrange(n as int, n + 3int);
    let p_oia = items.subrange(n + 3int, m as int);
    let p_set = items.subrange(m as int, items.len() as int);
    assert(items =~= p_static + p_fixed + p_oia + p_set);
    assert forall|i: int| 0 <= i < p_static.len() implies is_static_init(#[trigger] p_static[i]) by {
        assert(init_copy(statics[i], items[i]));
        lemma_copy_kind(statics[i], items[i]);
    }
    lemma_after_init_concat(init, p_static + p_fixed + p_oia, p_set);
    lemma_after_init_concat(init, p_static + p_fixed, p_oia);
    lemma_after_init_concat(init, p_static, p_fixed);
    lemma_after_init_statics(init, p_static);
    assert(p_fixed =~= seq![
        InitializeIndication::ScreenMode(t.screen_mode),
        InitializeIndication::Erase(t.erase),
        InitializeIndication::Thumb(t.thumb),
    ]);
    lemma_fixed_replay(t);
    let t1 = after_init(init, p_fixed);
    assert(t.oia.take(OIA_FIELD_COUNT as int) =~= t.oia);
    assert forall|i: int| 0 <= i < oias.len() implies #[trigger] p_oia[i] == oia_items(oias)[i] by {
        assert(p_oia[i] == items[n + 3 + i]);
    }
    assert(p_oia =~= oia_items(present_oia(t.oia.take(OIA_FIELD_COUNT as int))));
    lemma_oia_replay(t1, t.oia, OIA_FIELD_COUNT as nat);
    let t2 = after_init(t1, p_oia);
    assert(t2.oia =~= t.oia);
    assert(t.settings.take(t.settings.len() as int) =~= t.settings);
    assert forall|i: int| 0 <= i < t.settings.len() implies #[trigger] p_set[i] == setting_items(
        t.settings,
    )[i] by {
        assert(p_set[i] == items[m + i]);
    }
    assert(p_set =~= setting_items(t.settings.take(t.settings.len() as int)));
    lemma_settings_replay(t2, t.settings, t.settings.len());
}

/// Replaying four or five indications steps through them in order.
proof fn lemma_replay_steps(t: TrackerView, s: Seq<Indication>)
    requires
        s.len() == 4 || s.len() == 5,
    ensures
        replay(t, s.take(4)) == after(after(after(after(t, s[0]), s[1]), s[2]), s[3]),
        s.len() == 5 ==> replay(t, s) == after(replay(t, s.take(4)), s[4]),
        s.len() == 4 ==> replay(t, s) == replay(t, s.take(4)),
{
    assert(s.take(1).drop_last() =~= Seq::<Indication>::empty());
    assert(s.take(2).drop_last() =~= s.take(1));
    assert(s.take(3).drop_last() =~= s.take(2));
    assert(s.take(4).drop_last() =~= s.take(3));
    assert(s.take(1).last() == s[0]);
    assert(s.take(2).last() == s[1]);
    assert(s.take(3).last() == s[2]);
    assert(s.take(4).last() == s[3]);
    assert(replay(t, Seq::<Indication>::empty()) == t);
    assert(replay(t, s.take(1)) == after(t, s[0]));
    assert(replay(t, s.take(2)) == after(after(t, s[0]), s[1]));
    assert(replay(t, s.take(3)) == after(after(after(t, s[0]), s[1]), s[2]));
    if s.len() == 5 {
        assert(s.drop_last() =~= s.take(4));
    } else {
        assert(s =~= s.take(4));
    }
}

/// A snapshot's screen update, applied to the blank screen of the right
/// shape, rebuilds the screen and the cursor.
proof fn lemma_screen_replay(t: TrackerView, u: TrackerView, scr: Screen)
    requires
        t.wf(),
        t.cursor.enabled || t.cursor == initial_view().cursor,
        u.cursor == initial_view().cursor,
        u.screen == replayed_blank(t),
        is_screen_snapshot(scr, t),
    ensures
        after_screen(u, scr).screen == t.screen,
        after_screen(u, scr).cursor == t.cursor,
{
    let m = replayed_erase(t);
    lemma_replayed_shape(t);
    lemma_blank_valid(m.logical_rows->0 as nat, m.logical_cols->0 as nat, m.fg->0, m.bg->0);
    lemma_rows_replay(t.screen, scr.rows@, u.screen, t.screen.len());
    assert(scr.rows@.take(t.screen.len() as int) =~= scr.rows@);
    assert(after_screen(u, scr).screen =~= t.screen);
}

/// Replaying a snapshot into a fresh tracker rebuilds the screen, the OIA,
/// the connection, the cursor, the formatting state, the settings and the
/// TLS state. This holds of every tracker whose TLS state is unknown (a
/// snapshot carries TLS inside `Initialize`, where it is kept as a static
/// element), and whose cursor is enabled or in its initial state (a snapshot
/// carries the cursor only when it is enabled).
pub proof fn lemma_snapshot_fidelity(
    t: TrackerView,
    statics: Seq<InitializeIndication>,
    s: Seq<Indication>,
)
    requires
        t.wf(),
        t.tls is None,
        t.cursor.enabled || t.cursor == initial_view().cursor,
        forall|i: int| 0 <= i < statics.len() ==> is_static_init(#[trigger] statics[i]),
        is_snapshot(t, statics, s),
    ensures
        replay(initial_view(), s).screen == t.screen,
        replay(initial_view(), s).oia == t.oia,
        replay(initial_view(), s).connection == t.connection,
        replay(initial_view(), s).cursor == t.cursor,
        replay(initial_view(), s).formatted == t.formatted,
        replay(initial_view(), s).settings == t.settings,
        replay(initial_view(), s).tls == t.tls,
{
    let init = initial_view();
    let items = s[0]->Initialize_0@;
    let scr = s[2]->Screen_0;
    lemma_payload_replay(t, statics, items);
    lemma_replay_steps(init, s);
    let t3 = after(init, s[0]);
    assert(t3 == after_init(init, items));
    let t4 = after(t3, s[1]);
    assert(s[1] == Indication::Connection(t.connection));
    assert(t4.connection == t.connection && t4.screen == t3.screen && t4.cursor == t3.cursor
        && t4.oia == t3.oia && t4.settings == t3.settings && t4.tls == t3.tls);
    lemma_screen_replay(t, t4, scr);
    let t5 = after(t4, s[2]);
    assert(t5.screen == after_screen(t4, scr).screen && t5.cursor == after_screen(t4, scr).cursor);
    assert(t5.connection == t4.connection && t5.oia == t4.oia && t5.settings == t4.settings && t5.tls
        == t4.tls);
    let t6 = after(t5, s[3]);
    assert(s[3] == Indication::Formatted { state: t.formatted });
    assert(t6.formatted == t.formatted && t6.screen == t5.screen && t6.cursor == t5.cursor
        && t6.connection == t5.connection && t6.oia == t5.oia && t6.settings == t5.settings && t6.tls
        == t5.tls);
    if s.len() == 5 {
        let t7 = after(t6, s[4]);
        assert(t7.formatted == t6.formatted && t7.screen == t6.screen && t7.cursor == t6.cursor
            && t7.connection == t6.connection && t7.oia == t6.oia && t7.settings == t6.settings
            && t7.tls == t6.tls);
    }
}

} // verus!
