//! The interactive playground's state: which example is selected, what has
//! been typed, and the log of interactions. Running an example's graph is the
//! host's work; the operations here answer which example to activate.
use vstd::prelude::*;
use crate::strmap::key_lt;
use crate::text::{chars_of, copy_string, push_str, range_eq_str, string_eq_str};

verus! {

/// The playground: the examples' names, the selection, the input buffer, the
/// last submitted text and the interaction log.
#[derive(Debug, PartialEq, Eq)]
pub struct PlaygroundState {
    pub example_names: Vec<String>,
    pub selected: usize,
    pub input_buffer: String,
    pub last_submitted_text: String,
    pub interaction_log: Vec<String>,
}

/// The playground as values.
pub struct PlayV {
    pub names: Seq<Seq<char>>,
    pub selected: int,
    pub input: Seq<char>,
    pub submitted: Seq<char>,
    pub log: Seq<Seq<char>>,
}

pub open spec fn texts(v: Seq<String>) -> Seq<Seq<char>> {
    v.map_values(|s: String| s@)
}

impl View for PlaygroundState {
    type V = PlayV;

    open spec fn view(&self) -> PlayV {
        PlayV {
            names: texts(self.example_names@),
            selected: self.selected as int,
            input: self.input_buffer@,
            submitted: self.last_submitted_text@,
            log: texts(self.interaction_log@),
        }
    }
}

/// The selection points at an example, or is zero when there is none.
pub open spec fn play_wf(p: PlayV) -> bool {
    if p.names.len() == 0 {
        p.selected == 0
    } else {
        0 <= p.selected < p.names.len()
    }
}

/// The last position of the list, or zero when it is empty.
pub open spec fn last_index(p: PlayV) -> int {
    if p.names.len() == 0 {
        0
    } else {
        p.names.len() - 1
    }
}

/// The name at a position, or nothing.
pub open spec fn name_at(p: PlayV, i: int) -> Seq<char> {
    if 0 <= i < p.names.len() {
        p.names[i]
    } else {
        Seq::empty()
    }
}

/// The playground after moving the selection to `next`: a move is logged.
pub open spec fn moved(p: PlayV, next: int) -> PlayV {
    if next != p.selected {
        PlayV { selected: next, log: p.log.push("selected:"@ + name_at(p, next)), ..p }
    } else {
        p
    }
}

pub open spec fn min_int(a: int, b: int) -> int {
    if a < b {
        a
    } else {
        b
    }
}

pub open spec fn select_index_v(p: PlayV, i: int) -> PlayV {
    moved(p, min_int(i, last_index(p)))
}

/// The position of the first example with the name, from `i` on.
pub open spec fn name_index(names: Seq<Seq<char>>, n: Seq<char>, i: int) -> Option<int>
    decreases names.len() - i,
{
    if 0 <= i < names.len() {
        if names[i] == n {
            Some(i)
        } else {
            name_index(names, n, i + 1)
        }
    } else {
        None
    }
}

pub open spec fn select_by_name_v(p: PlayV, n: Seq<char>) -> PlayV {
    match name_index(p.names, n, 0) {
        Some(i) => select_index_v(p, i),
        None => p,
    }
}

pub open spec fn select_next_v(p: PlayV) -> PlayV {
    moved(p, min_int(p.selected + 1, last_index(p)))
}

pub open spec fn select_prev_v(p: PlayV) -> PlayV {
    moved(p, if p.selected > 0 { p.selected - 1 } else { 0 })
}

pub open spec fn select_first_v(p: PlayV) -> PlayV {
    moved(p, 0)
}

pub open spec fn select_last_v(p: PlayV) -> PlayV {
    moved(p, last_index(p))
}

pub open spec fn type_text_v(p: PlayV, t: Seq<char>) -> PlayV {
    PlayV { input: p.input + t, log: p.log.push("typed_text:"@ + t), ..p }
}

/// Activating the selected example, if there is one: it is logged, and its
/// position is what the host runs.
pub open spec fn trigger_v(p: PlayV) -> (PlayV, Option<int>) {
    if 0 <= p.selected < p.names.len() {
        (PlayV { log: p.log.push("activated:"@ + p.names[p.selected]), ..p }, Some(p.selected))
    } else {
        (p, None)
    }
}

/// Submitting: a typed text becomes the submitted one, the key is logged,
/// and the selected example is activated.
pub open spec fn submit_v(p: PlayV, key: Seq<char>) -> (PlayV, Option<int>) {
    let p1 = if p.input.len() > 0 {
        PlayV { submitted: p.input, input: Seq::empty(), ..p }
    } else {
        p
    };
    trigger_v(PlayV { log: p1.log.push("submit_key:"@ + key), ..p1 })
}

/// What a key does: Home and End jump to the ends, arrows move, Enter and
/// Space submit, Minus is logged as unbound, Backspace drops the last typed
/// character, and any other key is logged.
pub open spec fn press_key_v(p: PlayV, key: Seq<char>) -> (PlayV, Option<int>) {
    if key == "Home"@ {
        (select_first_v(p), None)
    } else if key == "End"@ {
        (select_last_v(p), None)
    } else if key == "ArrowDown"@ || key == "Down"@ || key == "ArrowRight"@ || key == "Right"@ {
        (select_next_v(p), None)
    } else if key == "ArrowUp"@ || key == "Up"@ || key == "ArrowLeft"@ || key == "Left"@ {
        (select_prev_v(p), None)
    } else if key == "Enter"@ || key == "Space"@ || key == " "@ {
        submit_v(p, key)
    } else if key == "-"@ || key == "Minus"@ {
        (PlayV { log: p.log.push("decrement_unbound:"@ + name_at(p, p.selected)), ..p }, None)
    } else if key == "Backspace"@ {
        (
            PlayV {
                input: if p.input.len() > 0 {
                    p.input.drop_last()
                } else {
                    p.input
                },
                log: p.log.push("key:Backspace"@),
                ..p
            },
            None,
        )
    } else {
        (PlayV { log: p.log.push("key:"@ + key), ..p }, None)
    }
}

fn copy_strings(v: &Vec<String>) -> (r: Vec<String>)
    ensures
        texts(r@) == texts(v@),
{
    let mut out: Vec<String> = Vec::new();
    let mut i: usize = 0;
    while i < v.len()
        invariant
            i <= v@.len(),
            texts(out@) == texts(v@.take(i as int)),
        decreases v@.len() - i,
    {
        let s = copy_string(&v[i]);
        let ghost before = out@;
        out.push(s);
        assert(texts(out@) =~= texts(before).push(s@));
        assert(texts(v@.take(i + 1)) =~= texts(v@.take(i as int)).push(v@[i as int]@));
        i = i + 1;
    }
    assert(v@.take(v@.len() as int) =~= v@);
    out
}

impl PlaygroundState {
    /// A playground over the examples, with the first one selected.
    pub fn new(example_names: Vec<String>) -> (r: Self)
        ensures
            r@.names == texts(example_names@),
            r@.selected == 0,
            r@.input.len() == 0,
            r@.submitted.len() == 0,
            r@.log.len() == 0,
            play_wf(r@),
    {
        let r = PlaygroundState {
            example_names,
            selected: 0,
            input_buffer: String::new(),
            last_submitted_text: String::new(),
            interaction_log: Vec::new(),
        };
        assert(texts(r.interaction_log@) =~= Seq::<Seq<char>>::empty());
        r
    }

    /// The names of the examples, in order.
    pub fn loaded_examples(&self) -> (r: Vec<String>)
        ensures
            texts(r@) == self@.names,
    {
        copy_strings(&self.example_names)
    }

    /// The selected example's name, or nothing.
    pub fn selected_name(&self) -> (r: String)
        ensures
            r@ == name_at(self@, self@.selected),
    {
        if self.selected < self.example_names.len() {
            copy_string(&self.example_names[self.selected])
        } else {
            String::new()
        }
    }

    fn move_to(&mut self, next: usize)
        requires
            play_wf(old(self)@),
            old(self)@.names.len() == 0 ==> next == 0,
            old(self)@.names.len() > 0 ==> next < old(self)@.names.len(),
        ensures
            final(self)@ == moved(old(self)@, next as int),
            play_wf(final(self)@),
    {
        if next != self.selected {
            self.selected = next;
            let mut entry = "selected:".to_owned();
            let name = self.selected_name();
            push_str(&mut entry, name.as_str());
            let ghost before = self.interaction_log@;
            self.interaction_log.push(entry);
            assert(texts(self.interaction_log@) =~= texts(before).push(entry@));
        }
    }

    fn last(&self) -> (r: usize)
        ensures
            r == last_index(self@),
    {
        if self.example_names.len() == 0 {
            0
        } else {
            self.example_names.len() - 1
        }
    }

    /// Selects the example at a position, or the last one.
    pub fn select_index(&mut self, index: usize)
        requires
            play_wf(old(self)@),
        ensures
            final(self)@ == select_index_v(old(self)@, index as int),
            play_wf(final(self)@),
    {
        let last = self.last();
        let next = if index < last {
            index
        } else {
            last
        };
        self.move_to(next);
    }

    /// Selects the first example with the name, if there is one.
    pub fn select_by_name(&mut self, name: &str)
        requires
            play_wf(old(self)@),
        ensures
            final(self)@ == select_by_name_v(old(self)@, name@),
            play_wf(final(self)@),
    {
        let mut i: usize = 0;
        while i < self.example_names.len()
            invariant
                i <= self@.names.len(),
                self@ == old(self)@,
                play_wf(self@),
                name_index(self@.names, name@, i as int) == name_index(self@.names, name@, 0),
            decreases self@.names.len() - i,
        {
            assert(self@.names[i as int] == self.example_names@[i as int]@);
            if string_eq_str(&self.example_names[i], name) {
                self.select_index(i);
                return;
            }
            i = i + 1;
        }
    }

    /// Moves the selection one down, stopping at the last example.
    pub fn select_next(&mut self)
        requires
            play_wf(old(self)@),
        ensures
            final(self)@ == select_next_v(old(self)@),
            play_wf(final(self)@),
    {
        let last = self.last();
        let next = if self.selected < last {
            self.selected + 1
        } else {
            last
        };
        self.move_to(next);
    }

    /// Moves the selection one up, stopping at the first example.
    pub fn select_prev(&mut self)
        requires
            play_wf(old(self)@),
        ensures
            final(self)@ == select_prev_v(old(self)@),
            play_wf(final(self)@),
    {
        let next = if self.selected > 0 {
            self.selected - 1
        } else {
            0
        };
        self.move_to(next);
    }

    /// Selects the first example.
    pub fn select_first(&mut self)
        requires
            play_wf(old(self)@),
        ensures
            final(self)@ == select_first_v(old(self)@),
            play_wf(final(self)@),
    {
        self.move_to(0);
    }

    /// Selects the last example.
    pub fn select_last(&mut self)
        requires
            play_wf(old(self)@),
        ensures
            final(self)@ == select_last_v(old(self)@),
            play_wf(final(self)@),
    {
        let last = self.last();
        self.move_to(last);
    }

    /// Adds typed text to the input buffer.
    pub fn type_text(&mut self, text: &str)
        ensures
            final(self)@ == type_text_v(old(self)@, text@),
    {
        push_str(&mut self.input_buffer, text);
        let mut entry = "typed_text:".to_owned();
        push_str(&mut entry, text);
        let ghost before = self.interaction_log@;
        self.interaction_log.push(entry);
        assert(texts(self.interaction_log@) =~= texts(before).push(entry@));
    }

    /// Activates the selected example: answers its position for the host to
    /// run, and logs it.
    pub fn trigger_selected(&mut self) -> (r: Option<usize>)
        ensures
            final(self)@ == trigger_v(old(self)@).0,
            match trigger_v(old(self)@).1 {
                Some(i) => r == Some(i as usize),
                None => r is None,
            },
    {
        if self.selected < self.example_names.len() {
            let mut entry = "activated:".to_owned();
            push_str(&mut entry, self.example_names[self.selected].as_str());
            let ghost before = self.interaction_log@;
            self.interaction_log.push(entry);
            assert(texts(self.interaction_log@) =~= texts(before).push(entry@));
            Some(self.selected)
        } else {
            None
        }
    }

    /// Submits the typed text with a key, then activates the selected example.
    pub fn submit_selected(&mut self, key: &str) -> (r: Option<usize>)
        ensures
            final(self)@ == submit_v(old(self)@, key@).0,
            match submit_v(old(self)@, key@).1 {
                Some(i) => r == Some(i as usize),
                None => r is None,
            },
    {
        let iv = chars_of(self.input_buffer.as_str());
        if iv.len() > 0 {
            self.last_submitted_text = copy_string(&self.input_buffer);
            self.input_buffer = String::new();
        }
        let mut entry = "submit_key:".to_owned();
        push_str(&mut entry, key);
        let ghost before = self.interaction_log@;
        self.interaction_log.push(entry);
        assert(texts(self.interaction_log@) =~= texts(before).push(entry@));
        self.trigger_selected()
    }

    /// Handles a key by its label; answers the example to activate, if any.
    pub fn press_key_label(&mut self, key: &str) -> (r: Option<usize>)
        requires
            play_wf(old(self)@),
        ensures
            final(self)@ == press_key_v(old(self)@, key@).0,
            match press_key_v(old(self)@, key@).1 {
                Some(i) => r == Some(i as usize),
                None => r is None,
            },
            play_wf(final(self)@),
    {
        let k = chars_of(key);
        assert(k@.subrange(0, k@.len() as int) =~= k@);
        let n = k.len();
        if range_eq_str(k.as_slice(), 0, n, "Home") {
            self.select_first();
            None
        } else if range_eq_str(k.as_slice(), 0, n, "End") {
            self.select_last();
            None
        } else if range_eq_str(k.as_slice(), 0, n, "ArrowDown") || range_eq_str(k.as_slice(), 0, n, "Down")
            || range_eq_str(k.as_slice(), 0, n, "ArrowRight") || range_eq_str(k.as_slice(), 0, n, "Right") {
            self.select_next();
            None
        } else if range_eq_str(k.as_slice(), 0, n, "ArrowUp") || range_eq_str(k.as_slice(), 0, n, "Up")
            || range_eq_str(k.as_slice(), 0, n, "ArrowLeft") || range_eq_str(k.as_slice(), 0, n, "Left") {
            self.select_prev();
            None
        } else if range_eq_str(k.as_slice(), 0, n, "Enter") || range_eq_str(k.as_slice(), 0, n, "Space")
            || range_eq_str(k.as_slice(), 0, n, " ") {
            self.submit_selected(key)
        } else if range_eq_str(k.as_slice(), 0, n, "-") || range_eq_str(k.as_slice(), 0, n, "Minus") {
            let mut entry = "decrement_unbound:".to_owned();
            let name = self.selected_name();
            push_str(&mut entry, name.as_str());
            let ghost before = self.interaction_log@;
            self.interaction_log.push(entry);
            assert(texts(self.interaction_log@) =~= texts(before).push(entry@));
            None
        } else if range_eq_str(k.as_slice(), 0, n, "Backspace") {
            let iv = chars_of(self.input_buffer.as_str());
            if iv.len() > 0 {
                let kept = crate::text::string_of_range(iv.as_slice(), 0, iv.len() - 1);
                assert(iv@.subrange(0, iv@.len() - 1) =~= iv@.drop_last());
                self.input_buffer = kept;
            }
            let ghost before = self.interaction_log@;
            self.interaction_log.push("key:Backspace".to_owned());
            assert(texts(self.interaction_log@) =~= texts(before).push("key:Backspace"@));
            None
        } else {
            let mut entry = "key:".to_owned();
            push_str(&mut entry, key);
            let ghost before = self.interaction_log@;
            self.interaction_log.push(entry);
            assert(texts(self.interaction_log@) =~= texts(before).push(entry@));
            None
        }
    }

    /// The position of the counter example, if the playground has one.
    pub fn counter_index(&self) -> (r: Option<usize>)
        ensures
            match name_index(self@.names, "counter"@, 0) {
                Some(i) => r == Some(i as usize),
                None => r is None,
            },
    {
        let mut i: usize = 0;
        while i < self.example_names.len()
            invariant
                i <= self@.names.len(),
                name_index(self@.names, "counter"@, i as int) == name_index(self@.names, "counter"@, 0),
            decreases self@.names.len() - i,
        {
            assert(self@.names[i as int] == self.example_names@[i as int]@);
            if string_eq_str(&self.example_names[i], "counter") {
                return Some(i);
            }
            i = i + 1;
        }
        None
    }

    /// Activates the counter example, if there is one, and logs it.
    pub fn trigger_counter_increment(&mut self) -> (r: Option<usize>)
        ensures
            match name_index(old(self)@.names, "counter"@, 0) {
                Some(i) => r == Some(i as usize) && final(self)@ == (PlayV {
                    log: old(self)@.log.push("counter:increment"@),
                    ..old(self)@
                }),
                None => r is None && final(self)@ == old(self)@,
            },
    {
        match self.counter_index() {
            Some(i) => {
                let ghost before = self.interaction_log@;
                self.interaction_log.push("counter:increment".to_owned());
                assert(texts(self.interaction_log@) =~= texts(before).push("counter:increment"@));
                Some(i)
            },
            None => None,
        }
    }

    /// When the selected example is the counter: answers its position, for
    /// the host to take back its last action, and logs it.
    pub fn trigger_counter_decrement(&mut self) -> (r: Option<usize>)
        ensures
            if name_at(old(self)@, old(self)@.selected) == "counter"@ {
                r == Some(old(self).selected) && final(self)@ == (PlayV {
                    log: old(self)@.log.push("counter:decrement"@),
                    ..old(self)@
                })
            } else {
                r is None && final(self)@ == old(self)@
            },
    {
        let name = self.selected_name();
        if string_eq_str(&name, "counter") {
            let ghost before = self.interaction_log@;
            self.interaction_log.push("counter:decrement".to_owned());
            assert(texts(self.interaction_log@) =~= texts(before).push("counter:decrement"@));
            Some(self.selected)
        } else {
            None
        }
    }
}

/// The examples the sidebar shows: a window of up to sixteen rows around the
/// selection, kept inside the list.
pub open spec fn visible_range(p: PlayV) -> (int, int) {
    let half = if p.selected > 8 { p.selected - 8 } else { 0 };
    let top = if p.names.len() > 16 { p.names.len() - 16 } else { 0 };
    let start = min_int(half, top);
    (start, min_int(start + 16, p.names.len() as int))
}

/// The examples the sidebar shows, as a start and an end position.
pub fn visible_example_range(state: &PlaygroundState) -> (r: (usize, usize))
    ensures
        r.0 == visible_range(state@).0,
        r.1 == visible_range(state@).1,
{
    let len = state.example_names.len();
    let half = if state.selected > 8 {
        state.selected - 8
    } else {
        0
    };
    let top = if len > 16 {
        len - 16
    } else {
        0
    };
    let start = if half < top {
        half
    } else {
        top
    };
    let end = if start + 16 < len {
        start + 16
    } else {
        len
    };
    (start, end)
}

/// Every key keeps the selection on an example and only appends to the
/// interaction log.
pub proof fn lemma_keys_keep_state_valid(p: PlayV, key: Seq<char>)
    requires
        play_wf(p),
    ensures
        play_wf(press_key_v(p, key).0),
        press_key_v(p, key).0.log.len() >= p.log.len(),
        press_key_v(p, key).0.log.subrange(0, p.log.len() as int) == p.log,
        press_key_v(p, key).0.names == p.names,
{
    let r = press_key_v(p, key).0;
    assert(r.log.subrange(0, p.log.len() as int) =~= p.log);
}

/// Moving down and then up returns to the same example, unless the
/// selection was already on the last one.
pub proof fn lemma_next_then_prev(p: PlayV)
    requires
        play_wf(p),
        p.selected + 1 < p.names.len(),
    ensures
        select_prev_v(select_next_v(p)).selected == p.selected,
{
}

/// Selecting by a name that an example has selects an example of that name.
pub proof fn lemma_select_by_existing_name(p: PlayV, n: Seq<char>, i: int)
    requires
        play_wf(p),
        0 <= i < p.names.len(),
        p.names[i] == n,
    ensures
        name_at(select_by_name_v(p, n), select_by_name_v(p, n).selected) == n,
{
    lemma_name_index_found(p.names, n, 0, i);
}

proof fn lemma_name_index_found(names: Seq<Seq<char>>, n: Seq<char>, from: int, i: int)
    requires
        0 <= from <= i < names.len(),
        names[i] == n,
    ensures
        name_index(names, n, from) matches Some(j) && from <= j <= i && names[j] == n,
    decreases i - from,
{
    if names[from] != n {
        lemma_name_index_found(names, n, from + 1, i);
    }
}


/// Where a screenshot of a scripted run goes: the one taken once the
/// example is selected, the one taken after the action, or an extra one by
/// its name.
#[derive(Debug, PartialEq, Eq)]
pub enum ShotSlot {
    Selected,
    AfterAction,
    Extra(String),
}

/// What one scripted action did besides changing the playground: the
/// example it activated, and where its screenshot goes.
#[derive(Debug, PartialEq, Eq)]
pub struct HumanStep {
    pub activated: Option<usize>,
    pub screenshot: Option<ShotSlot>,
}

pub open spec fn or_empty(v: Option<Seq<char>>) -> Seq<char> {
    match v {
        Some(s) => s,
        None => Seq::empty(),
    }
}

/// The key an `activate` action presses: `-` for a decrement, Enter
/// otherwise.
pub open spec fn activate_key(semantic: Option<Seq<char>>) -> Seq<char> {
    if semantic == Some("decrement"@) {
        "-"@
    } else {
        "Enter"@
    }
}

/// The playground after a scripted action, and the example it activated.
pub open spec fn human_action_v(
    p: PlayV,
    kind: Seq<char>,
    value: Option<Seq<char>>,
    semantic: Option<Seq<char>>,
) -> (PlayV, Option<int>) {
    if kind == "select_example"@ {
        match value {
            Some(v) => (select_by_name_v(p, v), None),
            None => (p, None),
        }
    } else if kind == "type_text"@ {
        (type_text_v(p, or_empty(value)), None)
    } else if kind == "press_key"@ {
        press_key_v(p, or_empty(value))
    } else if kind == "activate"@ {
        press_key_v(p, activate_key(semantic))
    } else {
        (p, None)
    }
}

fn str_is(a: &str, b: &str) -> (r: bool)
    ensures
        r == (a@ == b@),
{
    let x = chars_of(a);
    let y = chars_of(b);
    crate::text::chars_eq(x.as_slice(), y.as_slice())
}

/// Carries out one action of a scripted run on the playground: selecting
/// an example, typing, pressing a key, activating (the `-` key for a
/// decrement, Enter otherwise), or taking a screenshot (`name`, by default
/// `screenshot`, sorts it into its slot); other kinds change nothing.
pub fn apply_human_action(
    state: &mut PlaygroundState,
    kind: &str,
    value: Option<&str>,
    semantic: Option<&str>,
    name: Option<&str>,
) -> (r: HumanStep)
    requires
        play_wf(old(state)@),
    ensures
        play_wf(final(state)@),
        ({
            let v = match value {
                Some(s) => Some(s@),
                None => None::<Seq<char>>,
            };
            let sem = match semantic {
                Some(s) => Some(s@),
                None => None::<Seq<char>>,
            };
            let o = human_action_v(old(state)@, kind@, v, sem);
            &&& final(state)@ == o.0
            &&& match o.1 {
                Some(i) => r.activated == Some(i as usize),
                None => r.activated is None,
            }
        }),
        kind@ != "screenshot"@ ==> r.screenshot is None,
        kind@ == "screenshot"@ ==> {
            let n = match name {
                Some(s) => s@,
                None => "screenshot"@,
            };
            &&& n == "selected"@ ==> r.screenshot == Some(ShotSlot::Selected)
            &&& n == "after-action"@ ==> r.screenshot == Some(ShotSlot::AfterAction)
            &&& n != "selected"@ && n != "after-action"@ ==> (r.screenshot matches Some(ShotSlot::Extra(x)) && x@ == n)
        },
{
    let v = match value {
        Some(s) => s,
        None => "",
    };
    proof {
        reveal_strlit("");
        reveal_strlit("select_example");
        reveal_strlit("type_text");
        reveal_strlit("press_key");
        reveal_strlit("activate");
        reveal_strlit("screenshot");
        reveal_strlit("selected");
        reveal_strlit("after-action");
        assert("select_example"@.len() == 14 && "type_text"@.len() == 9 && "press_key"@.len() == 9);
        assert("activate"@.len() == 8 && "screenshot"@.len() == 10);
        assert("selected"@.len() == 8 && "after-action"@.len() == 12);
        assert("type_text"@[0] != "press_key"@[0]);
    }
    if str_is(kind, "select_example") {
        match value {
            Some(s) => state.select_by_name(s),
            None => {},
        }
        return HumanStep { activated: None, screenshot: None };
    } else if str_is(kind, "type_text") {
        state.type_text(v);
        assert(kind@ == "type_text"@);
        assert(kind@ != "select_example"@);
        assert(kind@ != "screenshot"@);
        assert(final(state)@ == type_text_v(old(state)@, v@));
        assert(v@ == or_empty(match value { Some(s) => Some(s@), None => None::<Seq<char>> }));
        return HumanStep { activated: None, screenshot: None };
    } else if str_is(kind, "press_key") {
        assert(kind@ != "type_text"@);
        assert(v@ == or_empty(match value { Some(s) => Some(s@), None => None::<Seq<char>> }));
        let a = state.press_key_label(v);
        return HumanStep { activated: a, screenshot: None };
    } else if str_is(kind, "activate") {
        let decrement = match semantic {
            Some(s) => str_is(s, "decrement"),
            None => false,
        };
        let a = if decrement {
            state.press_key_label("-")
        } else {
            state.press_key_label("Enter")
        };
        return HumanStep { activated: a, screenshot: None };
    } else if str_is(kind, "screenshot") {
        let n = match name {
            Some(s) => s,
            None => "screenshot",
        };
        let slot = if str_is(n, "selected") {
            ShotSlot::Selected
        } else if str_is(n, "after-action") {
            ShotSlot::AfterAction
        } else {
            ShotSlot::Extra(n.to_owned())
        };
        assert(kind@ == "screenshot"@);
        assert(kind@ != "select_example"@);
        return HumanStep { activated: None, screenshot: Some(slot) };
    } else {
        HumanStep { activated: None, screenshot: None }
    }
}


pub type HashV = (Seq<char>, Seq<char>);

pub open spec fn hash_texts(v: Seq<(String, String)>) -> Seq<HashV> {
    v.map_values(|e: (String, String)| (e.0@, e.1@))
}

/// The first position from `j` on whose name sorts after `name`.
pub open spec fn first_after(s: Seq<HashV>, name: Seq<char>, j: int) -> int
    decreases s.len() - j,
{
    if j < 0 || j >= s.len() {
        s.len() as int
    } else if key_lt(name, s[j].0) {
        j
    } else {
        first_after(s, name, j + 1)
    }
}

/// `x` inserted after every entry whose name does not sort after its own.
pub open spec fn insert_by_name(s: Seq<HashV>, x: HashV) -> Seq<HashV> {
    let j = first_after(s, x.0, 0);
    s.take(j) + seq![x] + s.skip(j)
}

/// The entries sorted by name; entries with equal names keep their order.
pub open spec fn sort_by_name(s: Seq<HashV>) -> Seq<HashV>
    decreases s.len(),
{
    if s.len() == 0 {
        Seq::empty()
    } else {
        insert_by_name(sort_by_name(s.drop_last()), s.last())
    }
}

/// Whether a screenshot slot was filled.
pub open spec fn has_slot(slots: Seq<ShotSlot>, want: ShotSlot) -> bool {
    exists|i: int| 0 <= i < slots.len() && #[trigger] slots[i] == want
}

/// The verdict on a scripted run's captures: the `selected` and
/// `after-action` screenshots were taken, and the screenshot hashes, each a
/// name and a hash, are listed by name.
pub open spec fn captures_verdict(slots: Seq<ShotSlot>, hashes: Seq<HashV>) -> Result<Seq<HashV>, Seq<char>> {
    if !has_slot(slots, ShotSlot::Selected) {
        Err("manifest did not capture selected screenshot"@)
    } else if !has_slot(slots, ShotSlot::AfterAction) {
        Err("manifest did not capture after-action screenshot"@)
    } else {
        Ok(sort_by_name(hashes))
    }
}


fn first_after_exec(s: &Vec<(String, String)>, name: &String) -> (j: usize)
    ensures
        j as int == first_after(hash_texts(s@), name@, 0),
        j <= s@.len(),
{
    let ghost hs = hash_texts(s@);
    let n = crate::text::chars_of(name.as_str());
    let mut j: usize = 0;
    while j < s.len()
        invariant
            j <= s@.len(),
            hs == hash_texts(s@),
            hs.len() == s@.len(),
            n@ == name@,
            first_after(hs, name@, 0) == first_after(hs, name@, j as int),
        decreases s@.len() - j,
    {
        let key = crate::text::chars_of(s[j].0.as_str());
        if crate::strmap::key_less(n.as_slice(), key.as_slice()) {
            return j;
        }
        j = j + 1;
    }
    j
}

fn insert_by_name_exec(s: &mut Vec<(String, String)>, x: (String, String))
    ensures
        hash_texts(final(s)@) == insert_by_name(hash_texts(old(s)@), (x.0@, x.1@)),
{
    let ghost hs = hash_texts(s@);
    let j = first_after_exec(s, &x.0);
    let ghost at = j as int;
    s.insert(j, x);
    assert(hash_texts(s@) =~= hs.take(at) + seq![(x.0@, x.1@)] + hs.skip(at));
}

/// The screenshot hashes of a scripted run, listed by name, once the run is
/// known to have taken its `selected` and `after-action` screenshots.
pub fn check_captures(slots: &Vec<ShotSlot>, hashes: Vec<(String, String)>) -> (r: Result<Vec<(String, String)>, String>)
    ensures
        match captures_verdict(slots@, hash_texts(hashes@)) {
            Ok(sorted) => r matches Ok(v) && hash_texts(v@) == sorted,
            Err(e) => r matches Err(m) && m@ == e,
        },
{
    let mut selected = false;
    let mut after = false;
    let mut i: usize = 0;
    while i < slots.len()
        invariant
            i <= slots@.len(),
            selected == exists|k: int| 0 <= k < i && #[trigger] slots@[k] == ShotSlot::Selected,
            after == exists|k: int| 0 <= k < i && #[trigger] slots@[k] == ShotSlot::AfterAction,
        decreases slots@.len() - i,
    {
        match &slots[i] {
            ShotSlot::Selected => {
                selected = true;
            },
            ShotSlot::AfterAction => {
                after = true;
            },
            ShotSlot::Extra(_) => {},
        }
        i = i + 1;
    }
    if !selected {
        return Err("manifest did not capture selected screenshot".to_owned());
    }
    if !after {
        return Err("manifest did not capture after-action screenshot".to_owned());
    }
    let ghost all = hash_texts(hashes@);
    let mut sorted: Vec<(String, String)> = Vec::new();
    let mut k: usize = 0;
    while k < hashes.len()
        invariant
            k <= hashes@.len(),
            all == hash_texts(hashes@),
            all.len() == hashes@.len(),
            hash_texts(sorted@) == sort_by_name(all.take(k as int)),
        decreases hashes@.len() - k,
    {
        assert(all.take(k + 1).drop_last() =~= all.take(k as int));
        assert(all.take(k + 1).last() == (hashes@[k as int].0@, hashes@[k as int].1@));
        let e = (hashes[k].0.clone(), hashes[k].1.clone());
        insert_by_name_exec(&mut sorted, e);
        k = k + 1;
    }
    assert(all.take(k as int) =~= all);
    Ok(sorted)
}

} // verus!
