//! The interactive state: panels, options, the in-place option editor,
//! the background-fetch bookkeeping, and the keyboard dispatcher.
//!
//! Everything here is a plain state machine: a key event and the
//! current state determine the next state and at most one action for
//! the shell around the library to perform (exit, or start one of the
//! two network fetches).  The shell owns the event source, the
//! terminal and the network; the decisions live here.

use vstd::prelude::*;

use crate::geo::NominatimEntry;
use crate::numfmt::REAL_LIMIT;
use crate::numfmt::milli_rep;
use crate::numfmt::parse_milli;
use crate::numfmt::parse_milli_spec;
use crate::numfmt::str_eq;
use crate::simplify::Point;
use crate::simplify::in_bounds;
use crate::svg::produces_svg;
use crate::svg::path_views;
use crate::svg::svg_content;
use crate::util::DotsSpinner;
use crate::util::WrappingList;

verus! {

/// A keyboard event, as far as the dispatcher distinguishes them.
#[derive(Clone, Copy, PartialEq, Eq, Structural, Debug)]
pub enum Key {
    Char(char),
    Enter,
    Esc,
    Backspace,
    Tab,
    BackTab,
    Up,
    Down,
    CtrlC,
    Other,
}

/// The panels of the interface; exactly one holds focus.
#[derive(Clone, Copy, PartialEq, Eq, Structural, Debug)]
pub enum WidgetId {
    Places,
    Search,
    Options,
    Help,
    Error,
    ParamEdit,
}

/// The background worker: idle, fetching, or failed with a message.
pub enum WorkerState {
    Idle,
    Fetching,
    Error(String),
}

/// A typed option value: a real carried in thousandths, a text, or a
/// flag.
pub enum ParamValue {
    Real(i64),
    Text(String),
    Flag(bool),
}

/// The kind of an option value; editing never changes it.
#[derive(Clone, Copy, PartialEq, Eq, Structural, Debug)]
pub enum ParamKind {
    Real,
    Text,
    Flag,
}

/// The recognised options, in their fixed order.
#[derive(Clone, Copy, PartialEq, Eq, Structural, Debug)]
pub enum OptionKey {
    Width,
    Height,
    LineWidth,
    BackgroundColor,
    OpenOnSave,
}

/// One entry of the option bag.
pub struct OptionEntry {
    pub key: OptionKey,
    pub value: ParamValue,
}

/// The kind of a value.
pub open spec fn param_kind(v: ParamValue) -> ParamKind {
    match v {
        ParamValue::Real(_) => ParamKind::Real,
        ParamValue::Text(_) => ParamKind::Text,
        ParamValue::Flag(_) => ParamKind::Flag,
    }
}

/// The thousandths carried by a real value.
pub open spec fn real_val(v: ParamValue) -> int {
    match v {
        ParamValue::Real(m) => m as int,
        _ => 0,
    }
}

/// The characters carried by a text value.
pub open spec fn text_val(v: ParamValue) -> Seq<char> {
    match v {
        ParamValue::Text(s) => s@,
        _ => Seq::<char>::empty(),
    }
}

/// The truth carried by a flag value.
pub open spec fn flag_val(v: ParamValue) -> bool {
    match v {
        ParamValue::Flag(b) => b,
        _ => false,
    }
}

/// A real value stays within the accepted range.
pub open spec fn param_wf(v: ParamValue) -> bool {
    match v {
        ParamValue::Real(m) => -REAL_LIMIT <= m <= REAL_LIMIT,
        _ => true,
    }
}

/// How a value renders for display and editing.
pub open spec fn param_render(v: ParamValue) -> Seq<char> {
    match v {
        ParamValue::Real(m) => milli_rep(m as int),
        ParamValue::Text(s) => s@,
        ParamValue::Flag(b) => if b {
            "true"@
        } else {
            "false"@
        },
    }
}

/// Whether `s` parses at the kind of `v`: reals by the decimal
/// grammar, texts always, flags by the two bool words.
pub open spec fn parse_ok_spec(v: ParamValue, s: Seq<char>) -> bool {
    match param_kind(v) {
        ParamKind::Real => parse_milli_spec(s) is Some,
        ParamKind::Text => true,
        ParamKind::Flag => s == "true"@ || s == "false"@,
    }
}

impl ParamValue {
    /// The kind of this value.
    pub fn kind(&self) -> (r: ParamKind)
        ensures
            r == param_kind(*self),
    {
        match self {
            ParamValue::Real(_) => ParamKind::Real,
            ParamValue::Text(_) => ParamKind::Text,
            ParamValue::Flag(_) => ParamKind::Flag,
        }
    }

    /// A field-for-field copy.
    pub fn duplicate(&self) -> (r: Self)
        ensures
            r == *self,
    {
        match self {
            ParamValue::Real(m) => ParamValue::Real(*m),
            ParamValue::Text(s) => ParamValue::Text(s.clone()),
            ParamValue::Flag(b) => ParamValue::Flag(*b),
        }
    }

    /// Renders the value for display and editing.
    pub fn render(&self) -> (r: String)
        requires
            param_wf(*self),
        ensures
            r@ == param_render(*self),
    {
        match self {
            ParamValue::Real(m) => crate::numfmt::render_milli(*m),
            ParamValue::Text(s) => s.clone(),
            ParamValue::Flag(b) => if *b {
                String::from_str("true")
            } else {
                String::from_str("false")
            },
        }
    }

    /// Re-parses the value from `s`: on success the value is replaced
    /// in place, keeping its kind; on failure it stays as it was.
    pub fn from_str(&mut self, s: &str) -> (ok: bool)
        requires
            param_wf(*old(self)),
        ensures
            param_wf(*final(self)),
            param_kind(*final(self)) == param_kind(*old(self)),
            ok == parse_ok_spec(*old(self), s@),
            !ok ==> *final(self) == *old(self),
            ok && param_kind(*old(self)) == ParamKind::Real ==> parse_milli_spec(s@)
                == Option::Some(real_val(*final(self))),
            param_kind(*old(self)) == ParamKind::Text ==> text_val(*final(self)) == s@,
            ok && param_kind(*old(self)) == ParamKind::Flag ==> flag_val(*final(self)) == (s@
                == "true"@),
    {
        let k = self.kind();
        match k {
            ParamKind::Real => {
                match parse_milli(s) {
                    Option::Some(m) => {
                        *self = ParamValue::Real(m);
                        true
                    },
                    Option::None => false,
                }
            },
            ParamKind::Text => {
                *self = ParamValue::Text(String::from_str(s));
                true
            },
            ParamKind::Flag => {
                if str_eq(s, "true") {
                    *self = ParamValue::Flag(true);
                    true
                } else if str_eq(s, "false") {
                    *self = ParamValue::Flag(false);
                    true
                } else {
                    false
                }
            },
        }
    }
}

impl OptionEntry {
    /// A field-for-field copy.
    pub fn duplicate(&self) -> (r: Self)
        ensures
            r == *self,
    {
        OptionEntry { key: self.key, value: self.value.duplicate() }
    }
}

/// The display label of an option.
pub open spec fn label_spec(k: OptionKey) -> Seq<char> {
    match k {
        OptionKey::Width => "Width"@,
        OptionKey::Height => "Height"@,
        OptionKey::LineWidth => "Line width"@,
        OptionKey::BackgroundColor => "Background color"@,
        OptionKey::OpenOnSave => "Open on save"@,
    }
}

impl OptionKey {
    /// The display label.
    pub fn label(&self) -> (r: &'static str)
        ensures
            r@ == label_spec(*self),
    {
        match self {
            OptionKey::Width => "Width",
            OptionKey::Height => "Height",
            OptionKey::LineWidth => "Line width",
            OptionKey::BackgroundColor => "Background color",
            OptionKey::OpenOnSave => "Open on save",
        }
    }
}

/// What one editing key does to a text buffer: a character appends,
/// backspace removes the last character, anything else leaves it.
pub open spec fn edit_spec(s: Seq<char>, k: Key) -> Seq<char> {
    match k {
        Key::Backspace => if s.len() > 0 {
            s.drop_last()
        } else {
            s
        },
        Key::Char(c) => s.push(c),
        _ => s,
    }
}

/// Whether a key edits a text buffer.
pub open spec fn is_edit_key(k: Key) -> bool {
    k is Backspace || k is Char
}

/// Applies one editing key to a buffer.
pub fn edit_string(s: &mut String, code: Key) -> (changed: bool)
    ensures
        final(s)@ == edit_spec(old(s)@, code),
        changed == is_edit_key(code),
        !is_edit_key(code) ==> *final(s) == *old(s),
{
    match code {
        Key::Backspace => {
            let _ = s.pop();
            true
        },
        Key::Char(c) => {
            s.push(c);
            true
        },
        _ => false,
    }
}

/// The in-place editor over one option value: a text buffer, the
/// working value, and whether the buffer currently parses.
pub struct ParmEditState {
    pub buffer: String,
    pub value: ParamValue,
    pub is_valid: bool,
}

/// The editor's invariant: the flag says exactly whether the buffer
/// parses at the value's kind, and a valid buffer is what the working
/// value came from.
pub open spec fn edit_wf(es: ParmEditState) -> bool {
    &&& param_wf(es.value)
    &&& es.is_valid == parse_ok_spec(es.value, es.buffer@)
    &&& (es.is_valid && param_kind(es.value) == ParamKind::Real ==> parse_milli_spec(es.buffer@)
        == Option::Some(real_val(es.value)))
    &&& (es.is_valid && param_kind(es.value) == ParamKind::Text ==> text_val(es.value)
        == es.buffer@)
    &&& (es.is_valid && param_kind(es.value) == ParamKind::Flag ==> flag_val(es.value) == (
    es.buffer@ == "true"@))
}

impl ParmEditState {
    /// Opens an editor over `value`: the buffer holds the rendered
    /// value, re-parsed once to set the validity flag.  A rendered
    /// value always parses back, so the editor opens valid.
    pub fn new(value: ParamValue) -> (r: Self)
        requires
            param_wf(value),
        ensures
            edit_wf(r),
            r.buffer@ == param_render(value),
            param_kind(r.value) == param_kind(value),
            r.is_valid,
    {
        proof {
            if value is Real {
                crate::numfmt::lemma_milli_roundtrip(real_val(value));
            }
        }
        let buffer = value.render();
        let mut value = value;
        let is_valid = value.from_str(buffer.as_str());
        ParmEditState { buffer, value, is_valid }
    }
}

/// Spaces that align an option's value behind the longest label.
pub open spec fn pad_spec(n: int) -> Seq<char> {
    if n <= 0 {
        Seq::<char>::empty()
    } else {
        Seq::new(n as nat, |i: int| ' ')
    }
}

/// The display line of one option: its label, a separating colon, the
/// padding to `width` characters, and the rendered value.
pub open spec fn option_line_spec(e: OptionEntry, width: int) -> Seq<char> {
    label_spec(e.key) + ": "@ + pad_spec(width - label_spec(e.key).len()) + param_render(e.value)
}

/// Renders one option line, aligning the value behind a label column
/// of `width` characters.
pub fn option_line(e: &OptionEntry, width: usize) -> (r: String)
    requires
        param_wf(e.value),
    ensures
        r@ == option_line_spec(*e, width as int),
{
    let lab = e.key.label();
    let lab_len = lab.unicode_len();
    let mut s = String::from_str(lab);
    s.append(": ");
    let pad: usize = if width > lab_len {
        width - lab_len
    } else {
        0
    };
    let mut j: usize = 0;
    while j < pad
        invariant
            j <= pad,
            s@ == label_spec(e.key) + ": "@ + pad_spec(j as int),
        decreases pad - j,
    {
        s.push(' ');
        proof {
            assert(s@ =~= label_spec(e.key) + ": "@ + pad_spec(j + 1));
        }
        j += 1;
    }
    let v = e.value.render();
    s.append(v.as_str());
    proof {
        assert(pad as int == if width as int - label_spec(e.key).len() > 0 {
            width as int - label_spec(e.key).len()
        } else {
            0int
        });
        assert(pad_spec(width as int - label_spec(e.key).len()) == pad_spec(pad as int));
        assert(s@ =~= option_line_spec(*e, width as int));
    }
    s
}

/// What the dispatcher asks the shell to do besides mutating state.
pub enum UiAction {
    Nothing,
    Exit,
    StartSearch(String),
    StartRoads(NominatimEntry),
}

/// The whole interactive state.
pub struct State {
    pub focus: WidgetId,
    pub user_city: String,
    pub places: WrappingList<NominatimEntry>,
    pub params: WrappingList<OptionEntry>,
    pub worker_state: WorkerState,
    pub fetching_spinner: DotsSpinner,
    pub parm_edit_state: Option<ParmEditState>,
}

/// The option at position `i` of the bag.
pub open spec fn expected_key(i: int) -> OptionKey {
    if i == 0 {
        OptionKey::Width
    } else if i == 1 {
        OptionKey::Height
    } else if i == 2 {
        OptionKey::LineWidth
    } else if i == 3 {
        OptionKey::BackgroundColor
    } else {
        OptionKey::OpenOnSave
    }
}

/// The kind of the option at position `i`.
pub open spec fn expected_kind(i: int) -> ParamKind {
    if i <= 2 {
        ParamKind::Real
    } else if i == 3 {
        ParamKind::Text
    } else {
        ParamKind::Flag
    }
}

/// The first value stored under `k`, if any.
pub open spec fn lookup(s: Seq<OptionEntry>, k: OptionKey) -> Option<ParamValue>
    decreases s.len(),
{
    if s.len() == 0 {
        Option::<ParamValue>::None
    } else if s[0].key == k {
        Option::Some(s[0].value)
    } else {
        lookup(s.skip(1), k)
    }
}

/// The longest label in the bag.
pub open spec fn max_label_len(s: Seq<OptionEntry>) -> int
    decreases s.len(),
{
    if s.len() == 0 {
        0
    } else {
        let rest = max_label_len(s.drop_last());
        let l = label_spec(s.last().key).len() as int;
        if l > rest {
            l
        } else {
            rest
        }
    }
}

impl State {
    /// The state's invariant: both lists are well formed, the option
    /// bag holds the five recognised options in order with their fixed
    /// kinds, the spinner is in its cycle, the editor exists whenever
    /// it holds focus, and an open editor satisfies its own invariant.
    pub open spec fn wf(&self) -> bool {
        &&& self.places.wf()
        &&& self.params.wf()
        &&& self.params.elems().len() == 5
        &&& forall|i: int|
            0 <= i < 5 ==> (#[trigger] self.params.elems()[i]).key == expected_key(i)
        &&& forall|i: int|
            0 <= i < 5 ==> param_kind((#[trigger] self.params.elems()[i]).value)
                == expected_kind(i) && param_wf(self.params.elems()[i].value)
        &&& self.fetching_spinner.wf()
        &&& (self.focus == WidgetId::ParamEdit <==> self.parm_edit_state is Some)
        &&& (self.parm_edit_state is Some ==> edit_wf(self.parm_edit_state->0))
        &&& (self.parm_edit_state is Some ==> match self.params.sel() {
            Option::Some(i) => param_kind(self.parm_edit_state->0.value) == param_kind(
                self.params.elems()[i as int].value,
            ),
            Option::None => true,
        })
        &&& (self.worker_state is Error ==> self.focus == WidgetId::Error)
    }

    /// The initial state: focus on the search line, everything empty,
    /// the five options at their defaults.
    pub fn new() -> (r: Self)
        ensures
            r.wf(),
            r.focus == WidgetId::Search,
            r.user_city@ == Seq::<char>::empty(),
            r.places.elems().len() == 0,
            r.params.elems().len() == 5,
            r.params.sel() == Option::Some(0usize),
            r.params.elems()[0].value == ParamValue::Real(1_920_000i64),
            r.params.elems()[1].value == ParamValue::Real(1_080_000i64),
            r.params.elems()[2].value == ParamValue::Real(300i64),
            text_val(r.params.elems()[3].value) == "none"@,
            r.params.elems()[4].value == ParamValue::Flag(true),
            r.worker_state is Idle,
            r.fetching_spinner.ix() == 0 && r.fetching_spinner.last() is None,
            r.parm_edit_state is None,
    {
        let mut entries: Vec<OptionEntry> = Vec::new();
        entries.push(OptionEntry { key: OptionKey::Width, value: ParamValue::Real(1_920_000) });
        entries.push(OptionEntry { key: OptionKey::Height, value: ParamValue::Real(1_080_000) });
        entries.push(OptionEntry { key: OptionKey::LineWidth, value: ParamValue::Real(300) });
        entries.push(
            OptionEntry {
                key: OptionKey::BackgroundColor,
                value: ParamValue::Text(String::from_str("none")),
            },
        );
        entries.push(OptionEntry { key: OptionKey::OpenOnSave, value: ParamValue::Flag(true) });
        let r = State {
            focus: WidgetId::Search,
            user_city: String::new(),
            places: WrappingList::new(Vec::new()),
            params: WrappingList::new(entries),
            worker_state: WorkerState::Idle,
            fetching_spinner: DotsSpinner::new(),
            parm_edit_state: Option::None,
        };
        r
    }

    /// Whether a background fetch is under way.
    pub fn worker_busy(&self) -> (r: bool)
        ensures
            r == (self.worker_state is Fetching),
    {
        match self.worker_state {
            WorkerState::Fetching => true,
            WorkerState::Idle | WorkerState::Error(_) => false,
        }
    }

    /// The length of the longest option label.
    pub fn max_option_key_len(&self) -> (r: usize)
        ensures
            r as int == max_label_len(self.params.elems()),
    {
        let v = self.params.iter();
        let mut best: usize = 0;
        let mut i: usize = 0;
        while i < v.len()
            invariant
                v@ == self.params.elems(),
                i <= v@.len(),
                best as int == max_label_len(v@.take(i as int)),
                best <= 100,
            decreases v@.len() - i,
        {
            let lab = v[i].key.label();
            let l = lab.unicode_len();
            proof {
                assert(v@.take(i + 1).drop_last() =~= v@.take(i as int));
                assert(v@.take(i + 1).last() == v@[i as int]);
                assert(label_spec(v@[i as int].key).len() <= 16) by {
                    reveal_strlit("Width");
                    reveal_strlit("Height");
                    reveal_strlit("Line width");
                    reveal_strlit("Background color");
                    reveal_strlit("Open on save");
                }
            }
            if l > best {
                best = l;
            }
            i += 1;
        }
        proof {
            assert(v@.take(v@.len() as int) =~= v@);
        }
        best
    }

    /// The value stored under `key`, if the bag holds it.
    pub fn param(&self, key: OptionKey) -> (r: Option<&ParamValue>)
        ensures
            match r {
                Option::Some(v) => lookup(self.params.elems(), key) == Option::Some(*v),
                Option::None => lookup(self.params.elems(), key) is None,
            },
    {
        let v = self.params.iter();
        proof {
            assert(v@.skip(0) =~= v@);
        }
        let mut i: usize = 0;
        while i < v.len()
            invariant
                v@ == self.params.elems(),
                i <= v@.len(),
                lookup(v@, key) == lookup(v@.skip(i as int), key),
            decreases v@.len() - i,
        {
            if v[i].key == key {
                proof {
                    assert(v@.skip(i as int)[0] == v@[i as int]);
                }
                return Option::Some(&v[i].value);
            }
            proof {
                assert(v@.skip(i as int)[0] == v@[i as int]);
                assert(v@.skip(i as int).skip(1) =~= v@.skip(i + 1));
            }
            i += 1;
        }
        proof {
            assert(v@.skip(v@.len() as int).len() == 0);
        }
        Option::None
    }

    /// Replaces the value of the selected option, keeping its key;
    /// does nothing without a selection.
    pub fn set_current_param(&mut self, value: ParamValue)
        requires
            old(self).wf(),
            param_wf(value),
            match old(self).params.sel() {
                Option::Some(i) => param_kind(value) == param_kind(
                    old(self).params.elems()[i as int].value,
                ),
                Option::None => true,
            },
        ensures
            final(self).wf(),
            final(self).focus == old(self).focus,
            final(self).user_city == old(self).user_city,
            final(self).places == old(self).places,
            final(self).worker_state == old(self).worker_state,
            final(self).fetching_spinner == old(self).fetching_spinner,
            final(self).parm_edit_state == old(self).parm_edit_state,
            final(self).params.sel() == old(self).params.sel(),
            match old(self).params.sel() {
                Option::Some(i) => final(self).params.elems() == old(self).params.elems().update(
                    i as int,
                    OptionEntry { key: old(self).params.elems()[i as int].key, value },
                ),
                Option::None => final(self).params.elems() == old(self).params.elems(),
            },
    {
        let k: OptionKey = match self.params.selected() {
            Option::Some(e) => e.key,
            Option::None => {
                return ;
            },
        };
        self.params.set_selected(OptionEntry { key: k, value });
    }

    /// Starts a background fetch: the worker becomes busy and the
    /// spinner starts over.
    pub fn begin_fetch(&mut self)
        requires
            old(self).wf(),
            old(self).worker_state is Idle,
        ensures
            final(self).wf(),
            final(self).worker_state is Fetching,
            final(self).fetching_spinner.ix() == 0,
            final(self).fetching_spinner.last() is None,
            final(self).focus == old(self).focus,
            final(self).user_city == old(self).user_city,
            final(self).places == old(self).places,
            final(self).params == old(self).params,
            final(self).parm_edit_state == old(self).parm_edit_state,
    {
        self.worker_state = WorkerState::Fetching;
        self.fetching_spinner = DotsSpinner::new();
    }

    /// Publishes a failed background fetch: the message is stored, the
    /// error panel takes focus, and the spinner stops.
    pub fn fail_worker(&mut self, msg: String)
        requires
            old(self).wf(),
            old(self).parm_edit_state is None,
        ensures
            final(self).wf(),
            final(self).worker_state == WorkerState::Error(msg),
            final(self).focus == WidgetId::Error,
            final(self).fetching_spinner.ix() == 0,
            final(self).fetching_spinner.last() is None,
            final(self).user_city == old(self).user_city,
            final(self).places == old(self).places,
            final(self).params == old(self).params,
            final(self).parm_edit_state == old(self).parm_edit_state,
    {
        self.worker_state = WorkerState::Error(msg);
        self.focus = WidgetId::Error;
        self.fetching_spinner = DotsSpinner::new();
    }

    /// Publishes the result of a place search: the worker is idle
    /// again, the places list holds the findings, and it takes focus.
    pub fn complete_search(&mut self, cities: Vec<NominatimEntry>)
        requires
            old(self).wf(),
            old(self).parm_edit_state is None,
        ensures
            final(self).wf(),
            final(self).worker_state is Idle,
            final(self).places.elems() == cities@,
            final(self).places.sel() == if cities@.len() > 0 {
                Option::Some(0usize)
            } else {
                Option::<usize>::None
            },
            final(self).focus == WidgetId::Places,
            final(self).user_city == old(self).user_city,
            final(self).params == old(self).params,
            final(self).fetching_spinner == old(self).fetching_spinner,
            final(self).parm_edit_state == old(self).parm_edit_state,
    {
        self.worker_state = WorkerState::Idle;
        self.places = WrappingList::new(cities);
        self.focus = WidgetId::Places;
    }
}

/// A spinner at the first glyph that has never ticked.
pub open spec fn spinner_reset(s: DotsSpinner) -> bool {
    s.ix() == 0 && s.last() is None
}

/// The selection moved one step up, elements unchanged.
pub open spec fn moved_up<T>(pre: WrappingList<T>, post: WrappingList<T>) -> bool {
    &&& post.elems() == pre.elems()
    &&& match pre.sel() {
        Option::Some(i) => post.sel() == Option::Some(
            crate::util::up_ix(i as nat, pre.elems().len()) as usize,
        ),
        Option::None => post.sel() is None,
    }
}

/// The selection moved one step down, elements unchanged.
pub open spec fn moved_down<T>(pre: WrappingList<T>, post: WrappingList<T>) -> bool {
    &&& post.elems() == pre.elems()
    &&& match pre.sel() {
        Option::Some(i) => post.sel() == Option::Some(
            crate::util::down_ix(i as nat, pre.elems().len()) as usize,
        ),
        Option::None => post.sel() is None,
    }
}

/// The focus cycle of the tab key.
pub open spec fn tab_order(i: int) -> WidgetId {
    if i == 0 {
        WidgetId::Search
    } else if i == 1 {
        WidgetId::Places
    } else if i == 2 {
        WidgetId::Options
    } else {
        WidgetId::Help
    }
}

/// Position of a panel in the tab cycle; panels outside it get -1.
pub open spec fn tab_pos(f: WidgetId) -> int {
    match f {
        WidgetId::Search => 0,
        WidgetId::Places => 1,
        WidgetId::Options => 2,
        WidgetId::Help => 3,
        _ => -1,
    }
}

/// Where the tab key moves the focus: one step around the cycle, or
/// nowhere from a panel outside it.
pub open spec fn tab_next(f: WidgetId, k: Key) -> WidgetId {
    let p = tab_pos(f);
    if p < 0 {
        f
    } else {
        tab_order(
            (p + if k == Key::Tab {
                1int
            } else {
                3int
            }) % 4,
        )
    }
}

/// All fields but the focus are unchanged.
pub open spec fn only_focus_changed(pre: State, post: State) -> bool {
    &&& post.user_city == pre.user_city
    &&& post.places == pre.places
    &&& post.params == pre.params
    &&& post.worker_state == pre.worker_state
    &&& post.fetching_spinner == pre.fetching_spinner
    &&& post.parm_edit_state == pre.parm_edit_state
}

/// A fetch was started: the worker is busy with a fresh spinner and
/// nothing else moved.
pub open spec fn started_fetch(pre: State, post: State) -> bool {
    &&& post.focus == pre.focus
    &&& post.user_city == pre.user_city
    &&& post.places == pre.places
    &&& post.params == pre.params
    &&& post.worker_state is Fetching
    &&& spinner_reset(post.fetching_spinner)
    &&& post.parm_edit_state == pre.parm_edit_state
}

/// The search panel's behaviour.
pub open spec fn search_rel(pre: State, post: State, key: Key, action: UiAction) -> bool {
    if key == Key::Enter {
        if pre.user_city@.len() > 0 {
            &&& started_fetch(pre, post)
            &&& action matches UiAction::StartSearch(q) && q@ == pre.user_city@
        } else {
            post == pre && action is Nothing
        }
    } else if is_edit_key(key) {
        &&& post.focus == pre.focus
        &&& post.user_city@ == edit_spec(pre.user_city@, key)
        &&& post.places.elems().len() == 0
        &&& post.places.sel() is None
        &&& post.params == pre.params
        &&& post.worker_state == pre.worker_state
        &&& post.fetching_spinner == pre.fetching_spinner
        &&& post.parm_edit_state == pre.parm_edit_state
        &&& action is Nothing
    } else {
        post == pre && action is Nothing
    }
}

/// The places panel's behaviour.
pub open spec fn places_rel(pre: State, post: State, key: Key, action: UiAction) -> bool {
    if key == Key::Up || key == Key::Char('k') {
        &&& post.focus == pre.focus
        &&& post.user_city == pre.user_city
        &&& moved_up(pre.places, post.places)
        &&& post.params == pre.params
        &&& post.worker_state == pre.worker_state
        &&& post.fetching_spinner == pre.fetching_spinner
        &&& post.parm_edit_state == pre.parm_edit_state
        &&& action is Nothing
    } else if key == Key::Down || key == Key::Char('j') {
        &&& post.focus == pre.focus
        &&& post.user_city == pre.user_city
        &&& moved_down(pre.places, post.places)
        &&& post.params == pre.params
        &&& post.worker_state == pre.worker_state
        &&& post.fetching_spinner == pre.fetching_spinner
        &&& post.parm_edit_state == pre.parm_edit_state
        &&& action is Nothing
    } else if key == Key::Enter {
        match pre.places.sel() {
            Option::Some(i) => {
                &&& started_fetch(pre, post)
                &&& action matches UiAction::StartRoads(e) && e == pre.places.elems()[i as int]
            },
            Option::None => post == pre && action is Nothing,
        }
    } else {
        post == pre && action is Nothing
    }
}

/// The options panel's behaviour.
pub open spec fn options_rel(pre: State, post: State, key: Key, action: UiAction) -> bool {
    if key == Key::Up || key == Key::Char('k') {
        &&& post.focus == pre.focus
        &&& post.user_city == pre.user_city
        &&& post.places == pre.places
        &&& moved_up(pre.params, post.params)
        &&& post.worker_state == pre.worker_state
        &&& post.fetching_spinner == pre.fetching_spinner
        &&& post.parm_edit_state == pre.parm_edit_state
        &&& action is Nothing
    } else if key == Key::Down || key == Key::Char('j') {
        &&& post.focus == pre.focus
        &&& post.user_city == pre.user_city
        &&& post.places == pre.places
        &&& moved_down(pre.params, post.params)
        &&& post.worker_state == pre.worker_state
        &&& post.fetching_spinner == pre.fetching_spinner
        &&& post.parm_edit_state == pre.parm_edit_state
        &&& action is Nothing
    } else if key == Key::Enter {
        match pre.params.sel() {
            Option::Some(i) => {
                &&& post.focus == WidgetId::ParamEdit
                &&& post.user_city == pre.user_city
                &&& post.places == pre.places
                &&& post.params == pre.params
                &&& post.worker_state == pre.worker_state
                &&& post.fetching_spinner == pre.fetching_spinner
                &&& post.parm_edit_state is Some
                &&& post.parm_edit_state->0.buffer@ == param_render(
                    pre.params.elems()[i as int].value,
                )
                &&& param_kind(post.parm_edit_state->0.value) == param_kind(
                    pre.params.elems()[i as int].value,
                )
                &&& action is Nothing
            },
            Option::None => post == pre && action is Nothing,
        }
    } else {
        post == pre && action is Nothing
    }
}

/// The option editor's behaviour.
pub open spec fn param_edit_rel(pre: State, post: State, key: Key, action: UiAction) -> bool {
    match pre.parm_edit_state {
        Option::None => post == pre && action is Nothing,
        Option::Some(es) => if key == Key::Enter {
            if es.is_valid {
                &&& post.focus == WidgetId::Options
                &&& post.user_city == pre.user_city
                &&& post.places == pre.places
                &&& post.params.sel() == pre.params.sel()
                &&& match pre.params.sel() {
                    Option::Some(i) => post.params.elems() == pre.params.elems().update(
                        i as int,
                        OptionEntry { key: pre.params.elems()[i as int].key, value: es.value },
                    ),
                    Option::None => post.params.elems() == pre.params.elems(),
                }
                &&& post.worker_state == pre.worker_state
                &&& post.fetching_spinner == pre.fetching_spinner
                &&& post.parm_edit_state is None
                &&& action is Nothing
            } else {
                post == pre && action is Nothing
            }
        } else if key == Key::Esc {
            &&& post.focus == WidgetId::Options
            &&& post.user_city == pre.user_city
            &&& post.places == pre.places
            &&& post.params == pre.params
            &&& post.worker_state == pre.worker_state
            &&& post.fetching_spinner == pre.fetching_spinner
            &&& post.parm_edit_state is None
            &&& action is Nothing
        } else {
            &&& post.focus == pre.focus
            &&& post.user_city == pre.user_city
            &&& post.places == pre.places
            &&& post.params == pre.params
            &&& post.worker_state == pre.worker_state
            &&& post.fetching_spinner == pre.fetching_spinner
            &&& post.parm_edit_state is Some
            &&& post.parm_edit_state->0.buffer@ == edit_spec(es.buffer@, key)
            &&& param_kind(post.parm_edit_state->0.value) == param_kind(es.value)
            &&& post.parm_edit_state->0.is_valid == parse_ok_spec(
                es.value,
                edit_spec(es.buffer@, key),
            )
            &&& (!post.parm_edit_state->0.is_valid ==> post.parm_edit_state->0.value == es.value)
            &&& action is Nothing
        },
    }
}

/// The error panel's behaviour.
pub open spec fn error_rel(pre: State, post: State, key: Key, action: UiAction) -> bool {
    if key == Key::Enter {
        &&& post.focus == WidgetId::Search
        &&& post.user_city == pre.user_city
        &&& post.places == pre.places
        &&& post.params == pre.params
        &&& post.worker_state is Idle
        &&& post.fetching_spinner == pre.fetching_spinner
        &&& post.parm_edit_state == pre.parm_edit_state
        &&& action is Nothing
    } else {
        post == pre && action is Nothing
    }
}

/// The whole dispatcher: the exit keys end the session from any panel
/// but the editor; a busy worker swallows everything else; the tab
/// keys cycle the focus; and otherwise the focused panel decides.
pub open spec fn dispatch_rel(pre: State, post: State, key: Key, action: UiAction) -> bool {
    if pre.focus != WidgetId::ParamEdit && (key == Key::Esc || key == Key::CtrlC) {
        post == pre && action is Exit
    } else if pre.worker_state is Fetching {
        post == pre && action is Nothing
    } else if pre.focus != WidgetId::ParamEdit && (key == Key::Tab || key == Key::BackTab) {
        &&& post.focus == tab_next(pre.focus, key)
        &&& only_focus_changed(pre, post)
        &&& action is Nothing
    } else {
        match pre.focus {
            WidgetId::Search => search_rel(pre, post, key, action),
            WidgetId::Places => places_rel(pre, post, key, action),
            WidgetId::Options => options_rel(pre, post, key, action),
            WidgetId::ParamEdit => param_edit_rel(pre, post, key, action),
            WidgetId::Help => post == pre && action is Nothing,
            WidgetId::Error => error_rel(pre, post, key, action),
        }
    }
}

impl State {
    /// Handles one key event: mutates the state as the focused panel
    /// prescribes and says what the shell must do.
    #[verifier::rlimit(100)]
    pub fn dispatch_key(&mut self, code: Key) -> (action: UiAction)
        requires
            old(self).wf(),
        ensures
            final(self).wf(),
            dispatch_rel(*old(self), *final(self), code, action),
    {
        if !matches!(self.focus, WidgetId::ParamEdit) && (matches!(code, Key::Esc) || matches!(
            code,
            Key::CtrlC,
        )) {
            return UiAction::Exit;
        }
        if self.worker_busy() {
            return UiAction::Nothing;
        }
        if !matches!(self.focus, WidgetId::ParamEdit) && (matches!(code, Key::Tab) || matches!(
            code,
            Key::BackTab,
        )) {
            let p: i32 = match self.focus {
                WidgetId::Search => 0,
                WidgetId::Places => 1,
                WidgetId::Options => 2,
                WidgetId::Help => 3,
                _ => -1,
            };
            if p >= 0 {
                let d: i32 = if matches!(code, Key::Tab) {
                    1
                } else {
                    3
                };
                let np = (p + d) % 4;
                self.focus = if np == 0 {
                    WidgetId::Search
                } else if np == 1 {
                    WidgetId::Places
                } else if np == 2 {
                    WidgetId::Options
                } else {
                    WidgetId::Help
                };
            }
            return UiAction::Nothing;
        }
        match self.focus {
            WidgetId::Search => {
                if matches!(code, Key::Enter) {
                    if self.user_city.as_str().is_empty() {
                        UiAction::Nothing
                    } else {
                        let q = self.user_city.clone();
                        self.begin_fetch();
                        UiAction::StartSearch(q)
                    }
                } else {
                    if edit_string(&mut self.user_city, code) {
                        self.places = WrappingList::new(Vec::new());
                    }
                    UiAction::Nothing
                }
            },
            WidgetId::Places => {
                match code {
                    Key::Up | Key::Char('k') => {
                        self.places.up();
                        UiAction::Nothing
                    },
                    Key::Down | Key::Char('j') => {
                        self.places.down();
                        UiAction::Nothing
                    },
                    Key::Enter => {
                        match self.places.selected() {
                            Option::Some(place) => {
                                let e = place.duplicate();
                                self.begin_fetch();
                                UiAction::StartRoads(e)
                            },
                            Option::None => UiAction::Nothing,
                        }
                    },
                    _ => UiAction::Nothing,
                }
            },
            WidgetId::Options => {
                match code {
                    Key::Up | Key::Char('k') => {
                        self.params.up();
                        UiAction::Nothing
                    },
                    Key::Down | Key::Char('j') => {
                        self.params.down();
                        UiAction::Nothing
                    },
                    Key::Enter => {
                        match self.params.selected() {
                            Option::Some(entry) => {
                                let v = entry.value.duplicate();
                                self.parm_edit_state = Option::Some(ParmEditState::new(v));
                                self.focus = WidgetId::ParamEdit;
                                UiAction::Nothing
                            },
                            Option::None => UiAction::Nothing,
                        }
                    },
                    _ => UiAction::Nothing,
                }
            },
            WidgetId::ParamEdit => {
                match code {
                    Key::Enter => {
                        let commit: Option<ParamValue> = match &self.parm_edit_state {
                            Option::Some(es) => if es.is_valid {
                                Option::Some(es.value.duplicate())
                            } else {
                                Option::None
                            },
                            Option::None => Option::None,
                        };
                        match commit {
                            Option::Some(v) => {
                                self.set_current_param(v);
                                self.parm_edit_state = Option::None;
                                self.focus = WidgetId::Options;
                                UiAction::Nothing
                            },
                            Option::None => UiAction::Nothing,
                        }
                    },
                    Key::Esc => {
                        if matches!(&self.parm_edit_state, Option::Some(_)) {
                            self.parm_edit_state = Option::None;
                            self.focus = WidgetId::Options;
                        }
                        UiAction::Nothing
                    },
                    _ => {
                        match &mut self.parm_edit_state {
                            Option::Some(es) => {
                                let _ = edit_string(&mut es.buffer, code);
                                let ok = es.value.from_str(es.buffer.as_str());
                                es.is_valid = ok;
                            },
                            Option::None => {},
                        }
                        UiAction::Nothing
                    },
                }
            },
            WidgetId::Help => UiAction::Nothing,
            WidgetId::Error => {
                if matches!(code, Key::Enter) {
                    self.worker_state = WorkerState::Idle;
                    self.focus = WidgetId::Search;
                }
                UiAction::Nothing
            },
        }
    }
}

/// The write-out of a finished drawing: where to put it, its text,
/// and whether to open it afterwards.
pub struct SvgJob {
    pub path: String,
    pub content: String,
    pub open: bool,
}

/// In a well-formed bag the five options are found at their fixed
/// positions.
proof fn lemma_params_lookup(s: Seq<OptionEntry>)
    requires
        s.len() == 5,
        forall|i: int| 0 <= i < 5 ==> (#[trigger] s[i]).key == expected_key(i),
    ensures
        lookup(s, OptionKey::Width) == Option::Some(s[0].value),
        lookup(s, OptionKey::Height) == Option::Some(s[1].value),
        lookup(s, OptionKey::LineWidth) == Option::Some(s[2].value),
        lookup(s, OptionKey::BackgroundColor) == Option::Some(s[3].value),
        lookup(s, OptionKey::OpenOnSave) == Option::Some(s[4].value),
{
    reveal_with_fuel(lookup, 6);
    let s1 = s.skip(1);
    let s2 = s.skip(2);
    let s3 = s.skip(3);
    let s4 = s.skip(4);
    assert(s1.skip(1) =~= s2);
    assert(s2.skip(1) =~= s3);
    assert(s3.skip(1) =~= s4);
    assert(s4.skip(1) =~= s.skip(5));
    assert(s1[0] == s[1] && s2[0] == s[2] && s3[0] == s[3] && s4[0] == s[4]);
}

impl State {
    /// Publishes the result of a road fetch: the worker is idle again;
    /// when the drawing has content, the document is handed back with
    /// the file name derived from the search text and the open flag.
    pub fn complete_roads(&mut self, paths: Vec<Vec<Point>>) -> (r: Option<SvgJob>)
        requires
            old(self).wf(),
            old(self).parm_edit_state is None,
            forall|i: int, j: int|
                0 <= i < paths@.len() && 0 <= j < paths@[i]@.len() ==> in_bounds(
                    #[trigger] paths@[i]@[j],
                ),
        ensures
            final(self).wf(),
            final(self).worker_state is Idle,
            final(self).focus == old(self).focus,
            final(self).user_city == old(self).user_city,
            final(self).places == old(self).places,
            final(self).params == old(self).params,
            final(self).parm_edit_state == old(self).parm_edit_state,
            r is Some <==> (real_val(old(self).params.elems()[0].value) > 0 && real_val(
                old(self).params.elems()[1].value,
            ) > 0 && exists|i: int|
                0 <= i < paths@.len() && (#[trigger] paths@[i]@).len() > 0),
            r is Some ==> r->0.path@ == old(self).user_city@ + ".svg"@,
            r is Some ==> r->0.open == flag_val(old(self).params.elems()[4].value),
            r is Some ==> produces_svg(
                r->0.content@,
                path_views(paths@),
                real_val(old(self).params.elems()[0].value),
                real_val(old(self).params.elems()[1].value),
                real_val(old(self).params.elems()[2].value),
                text_val(old(self).params.elems()[3].value),
            ),
    {
        self.worker_state = WorkerState::Idle;
        let v = self.params.iter();
        let w: i64 = match &v[0].value {
            ParamValue::Real(m) => *m,
            _ => 0,
        };
        let h: i64 = match &v[1].value {
            ParamValue::Real(m) => *m,
            _ => 0,
        };
        let sw: i64 = match &v[2].value {
            ParamValue::Real(m) => *m,
            _ => 0,
        };
        let bg: String = match &v[3].value {
            ParamValue::Text(s) => s.clone(),
            _ => String::new(),
        };
        let open_on_save: bool = match &v[4].value {
            ParamValue::Flag(b) => *b,
            _ => false,
        };
        let doc = svg_content(&paths, w, h, sw, bg.as_str());
        match doc {
            Option::Some(content) => {
                let mut path = self.user_city.clone();
                path.append(".svg");
                Option::Some(SvgJob { path, content, open: open_on_save })
            },
            Option::None => Option::None,
        }
    }
}

/// Committing an option edit replaces the selected value exactly when
/// the final buffer parses at the value's own kind: with the editor
/// open and Enter pressed, the bag changes if and only if the buffer
/// is a valid text of the kind the edited value keeps throughout.
pub proof fn lemma_commit_iff_parses(pre: State, post: State, action: UiAction)
    requires
        pre.wf(),
        pre.focus == WidgetId::ParamEdit,
        !(pre.worker_state is Fetching),
        dispatch_rel(pre, post, Key::Enter, action),
    ensures
        (post.params.elems() != pre.params.elems() || post.parm_edit_state is None)
            <==> parse_ok_spec(pre.parm_edit_state->0.value, pre.parm_edit_state->0.buffer@),
{
    let es = pre.parm_edit_state->0;
    if es.is_valid {
        assert(post.parm_edit_state is None);
    } else {
        assert(post == pre);
    }
}

} // verus!
