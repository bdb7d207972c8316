//! Decisions of the web server around the driver: which preset files may be
//! touched, when the bulbs must be zeroed at start-up, and how the
//! disable-all switch of the bulbs is followed.

use tokio::time::Instant;
use vstd::prelude::*;

verus! {

/// A preset name may be used as a file name: it is not empty and holds no
/// path separator and no dot.
pub open spec fn is_safe_preset_name(name: Seq<char>) -> bool {
    &&& name.len() > 0
    &&& forall|i: int| 0 <= i < name.len() ==> #[trigger] name[i] != '/' && name[i] != '\\' && name[i] != '.'
}

/// The two strings are equal.
fn same_text(a: &str, b: &str) -> (r: bool)
    ensures
        r == (a@ == b@),
{
    let n = a.unicode_len();
    if n != b.unicode_len() {
        return false;
    }
    let mut i: usize = 0;
    while i < n
        invariant
            n == a@.len(),
            n == b@.len(),
            i <= n,
            forall|j: int| 0 <= j < i ==> a@[j] == b@[j],
        decreases n - i,
    {
        if a.get_char(i) != b.get_char(i) {
            return false;
        }
        i = i + 1;
    }
    assert(a@ =~= b@);
    true
}

/// The directory that holds the presets of `kind`, if `kind` is one of
/// `position`, `brightness` and `wave`.
pub fn preset_dir(kind: &str) -> (r: Option<&'static str>)
    ensures
        kind@ == "position"@ ==> (r matches Some(d) && d@ == "presets/position"@),
        kind@ == "brightness"@ ==> (r matches Some(d) && d@ == "presets/brightness"@),
        kind@ == "wave"@ ==> (r matches Some(d) && d@ == "presets/wave"@),
        kind@ != "position"@ && kind@ != "brightness"@ && kind@ != "wave"@ ==> r is None,
{
    proof {
        reveal_strlit("position");
        reveal_strlit("brightness");
        reveal_strlit("wave");
        assert("brightness"@.len() == 10);
        assert("position"@.len() == 8);
        assert("wave"@.len() == 4);
        assert("brightness"@ != "position"@);
        assert("wave"@ != "position"@);
        assert("wave"@ != "brightness"@);
    }
    if same_text(kind, "position") {
        Some("presets/position")
    } else if same_text(kind, "brightness") {
        Some("presets/brightness")
    } else if same_text(kind, "wave") {
        Some("presets/wave")
    } else {
        None
    }
}

/// The file name of the preset `name` (the name followed by `.json`), if
/// the name is safe to use as one.
pub fn preset_file_name(name: &str) -> (r: Option<String>)
    ensures
        is_safe_preset_name(name@) ==> (r matches Some(f) && f@ == name@ + ".json"@),
        !is_safe_preset_name(name@) ==> r is None,
{
    let n = name.unicode_len();
    if n == 0 {
        return None;
    }
    let mut i: usize = 0;
    while i < n
        invariant
            n == name@.len(),
            i <= n,
            forall|j: int| 0 <= j < i ==> #[trigger] name@[j] != '/' && name@[j] != '\\' && name@[j] != '.',
        decreases n - i,
    {
        let c = name.get_char(i);
        if c == '/' || c == '\\' || c == '.' {
            return None;
        }
        i = i + 1;
    }
    let mut file = String::from_str(name);
    file.append(".json");
    Some(file)
}

// ---------------------------------------------------------------------------
// Listing the presets of a kind
// ---------------------------------------------------------------------------

/// The ending of a preset's file name.
pub open spec fn json_ending() -> Seq<char> {
    seq!['.', 'j', 's', 'o', 'n']
}

/// The preset kept in the file named `file`: the name without its `.json`
/// ending, if it has one.
pub open spec fn preset_of_file(file: Seq<char>) -> Option<Seq<char>> {
    if file.len() >= 5 && file.skip(file.len() - 5) == json_ending() {
        Some(file.take(file.len() - 5))
    } else {
        None
    }
}

/// The presets kept in the files named `files`, in the files' order.
pub open spec fn presets_in(files: Seq<Seq<char>>) -> Seq<Seq<char>>
    decreases files.len(),
{
    if files.len() == 0 {
        Seq::empty()
    } else {
        let before = presets_in(files.drop_last());
        match preset_of_file(files.last()) {
            Some(name) => before.push(name),
            None => before,
        }
    }
}

/// A preset stored under `name`, in the file named by `preset_file_name`
/// (the name followed by `.json`), lists as `name`, whatever characters the
/// name holds; and a file lists as a name only when it is that name
/// followed by `.json`.
pub proof fn lemma_stored_preset_lists_under_its_name(name: Seq<char>, file: Seq<char>)
    ensures
        preset_of_file(name + ".json"@) == Some(name),
        preset_of_file(file) matches Some(n) ==> file == n + ".json"@,
{
    reveal_strlit(".json");
    assert(".json"@ =~= seq!['.', 'j', 's', 'o', 'n']);
    let f = name + ".json"@;
    assert(f.skip(f.len() - 5) =~= json_ending());
    assert(f.take(f.len() - 5) =~= name);
    if preset_of_file(file) is Some {
        assert(file =~= file.take(file.len() - 5) + file.skip(file.len() - 5));
    }
}

/// `a` comes no later than `b` in the order of text: the first character
/// where they differ decides, by its code point, and a prefix comes first.
pub open spec fn text_le(a: Seq<char>, b: Seq<char>) -> bool
    decreases a.len(),
{
    if a.len() == 0 {
        true
    } else if b.len() == 0 {
        false
    } else if a[0] != b[0] {
        (a[0] as int) < (b[0] as int)
    } else {
        text_le(a.drop_first(), b.drop_first())
    }
}

/// The texts of `v`.
pub open spec fn texts(v: Seq<String>) -> Seq<Seq<char>> {
    v.map_values(|s: String| s@)
}

/// The texts are in the order of `text_le`.
pub open spec fn texts_sorted(s: Seq<Seq<char>>) -> bool {
    forall|i: int, j: int| 0 <= i < j < s.len() ==> text_le(#[trigger] s[i], #[trigger] s[j])
}

/// Of two texts, one comes no later than the other.
pub proof fn lemma_text_le_total(a: Seq<char>, b: Seq<char>)
    ensures
        text_le(a, b) || text_le(b, a),
    decreases a.len(),
{
    if a.len() > 0 && b.len() > 0 {
        if a[0] == b[0] {
            lemma_text_le_total(a.drop_first(), b.drop_first());
        } else {
            assert((a[0] as int) != (b[0] as int));
        }
    }
}

/// The order of text is transitive.
pub proof fn lemma_text_le_transitive(a: Seq<char>, b: Seq<char>, c: Seq<char>)
    requires
        text_le(a, b),
        text_le(b, c),
    ensures
        text_le(a, c),
    decreases a.len(),
{
    if a.len() > 0 && b.len() > 0 && c.len() > 0 && a[0] == b[0] && b[0] == c[0] {
        lemma_text_le_transitive(a.drop_first(), b.drop_first(), c.drop_first());
    }
}

/// Two texts that each come no later than the other are the same text.
pub proof fn lemma_text_le_antisymmetric(a: Seq<char>, b: Seq<char>)
    requires
        text_le(a, b),
        text_le(b, a),
    ensures
        a == b,
    decreases a.len(),
{
    if a.len() > 0 {
        lemma_text_le_antisymmetric(a.drop_first(), b.drop_first());
        assert(a =~= seq![a[0]] + a.drop_first());
        assert(b =~= seq![b[0]] + b.drop_first());
    }
}

/// Whether `a` comes no later than `b` in the order of text.
fn text_le_exec(a: &str, b: &str) -> (r: bool)
    ensures
        r == text_le(a@, b@),
{
    let n = a.unicode_len();
    let m = b.unicode_len();
    let mut i: usize = 0;
    assert(a@.skip(0) =~= a@);
    assert(b@.skip(0) =~= b@);
    while i < n && i < m
        invariant
            n == a@.len(),
            m == b@.len(),
            i <= n,
            i <= m,
            text_le(a@, b@) == text_le(a@.skip(i as int), b@.skip(i as int)),
        decreases n - i,
    {
        let c = a.get_char(i);
        let d = b.get_char(i);
        if c != d {
            return (c as u32) < (d as u32);
        }
        assert(a@.skip(i as int).drop_first() =~= a@.skip(i + 1));
        assert(b@.skip(i as int).drop_first() =~= b@.skip(i + 1));
        i = i + 1;
    }
    i == n
}

/// The preset kept in the file named `file`, if the name ends in `.json`.
fn preset_of_file_name(file: &str) -> (r: Option<String>)
    ensures
        match r {
            Some(name) => preset_of_file(file@) == Some(name@),
            None => preset_of_file(file@) is None,
        },
{
    let n = file.unicode_len();
    if n < 5 {
        return None;
    }
    let ending = file.substring_char(n - 5, n);
    assert(ending@ =~= file@.skip(n - 5));
    let is_json = ending.get_char(0) == '.' && ending.get_char(1) == 'j' && ending.get_char(2)
        == 's' && ending.get_char(3) == 'o' && ending.get_char(4) == 'n';
    if !is_json {
        assert(ending@ != json_ending()) by {
            if ending@ == json_ending() {
                assert(ending@[0] == '.' && ending@[1] == 'j' && ending@[2] == 's' && ending@[3] == 'o'
                    && ending@[4] == 'n');
            }
        }
        return None;
    }
    assert(ending@ =~= json_ending());
    let stem = file.substring_char(0, n - 5);
    assert(stem@ =~= file@.take(n - 5));
    Some(String::from_str(stem))
}

/// The presets kept in a directory whose files are named `files`: the names
/// of the files that end in `.json`, without that ending, in the order of
/// text.
pub fn preset_names(files: &Vec<String>) -> (r: Vec<String>)
    ensures
        texts_sorted(texts(r@)),
        texts(r@).to_multiset() == presets_in(texts(files@)).to_multiset(),
{
    let mut r: Vec<String> = Vec::new();
    let mut i: usize = 0;
    assert(texts(r@) =~= Seq::<Seq<char>>::empty());
    assert(texts(files@).take(0) =~= Seq::<Seq<char>>::empty());
    while i < files.len()
        invariant
            i <= files.len(),
            texts_sorted(texts(r@)),
            texts(r@).to_multiset() == presets_in(texts(files@).take(i as int)).to_multiset(),
        decreases files.len() - i,
    {
        assert(texts(files@).take(i + 1).drop_last() =~= texts(files@).take(i as int));
        assert(texts(files@).take(i + 1).last() == files@[i as int]@);
        let ghost done = presets_in(texts(files@).take(i as int));
        assert(presets_in(texts(files@).take(i + 1)) == match preset_of_file(files@[i as int]@) {
            Some(n) => done.push(n),
            None => done,
        });
        match preset_of_file_name(files[i].as_str()) {
            None => {},
            Some(name) => {
                let mut k: usize = 0;
                while k < r.len() && !text_le_exec(name.as_str(), r[k].as_str())
                    invariant
                        k <= r.len(),
                        texts_sorted(texts(r@)),
                        forall|j: int| 0 <= j < k ==> text_le(#[trigger] texts(r@)[j], name@),
                    decreases r.len() - k,
                {
                    proof {
                        lemma_text_le_total(name@, r@[k as int]@);
                    }
                    k = k + 1;
                }
                let ghost before = texts(r@);
                proof {
                    assert forall|j: int| k <= j < before.len() implies text_le(
                        name@,
                        #[trigger] before[j],
                    ) by {
                        if j > k {
                            lemma_text_le_transitive(name@, before[k as int], before[j]);
                        }
                    }
                }
                let ghost added = name@;
                r.insert(k, name);
                assert(texts(r@) =~= before.insert(k as int, added));
                proof {
                    vstd::seq_lib::to_multiset_insert(before, k as int, added);
                    vstd::seq_lib::to_multiset_build(done, added);
                }
            },
        }
        i = i + 1;
    }
    assert(texts(files@).take(files.len() as int) =~= texts(files@));
    r
}

/// At start-up the bulbs must be zeroed unless their positions were saved
/// while they were at rest.
pub fn startup_needs_zero(bulbs_moving: bool, positions_empty: bool) -> (r: bool)
    ensures
        r == (bulbs_moving || positions_empty),
{
    bulbs_moving || positions_empty
}

/// What to do about the bulbs' disable-all signal.
#[derive(Clone, Copy, Debug, PartialEq, Eq, Structural)]
pub enum DisableAction {
    /// Nothing changed.
    Nothing,
    /// Save the dimmer and the running wave, and darken every bulb.
    Enter,
    /// Bring back what was saved on entering.
    Restore,
}

/// The disable-all switch: whether the chandelier is disabled, and whether
/// some bulb reported the disable-all signal at the last look.
#[derive(Clone, Copy, Debug, PartialEq, Eq, Structural)]
pub struct DisableAllCtrl {
    pub disabled: bool,
    pub prev_any_disable_all: bool,
}

/// The action the signal asks for: a rising edge toggles between entering
/// and leaving the disabled state; anything else asks for nothing.
pub open spec fn signal_action(ctrl: DisableAllCtrl, any_disable_all: bool) -> DisableAction {
    if any_disable_all && !ctrl.prev_any_disable_all {
        if ctrl.disabled {
            DisableAction::Restore
        } else {
            DisableAction::Enter
        }
    } else {
        DisableAction::Nothing
    }
}

impl DisableAllCtrl {
    /// Not disabled, and no signal seen.
    pub fn new() -> (r: DisableAllCtrl)
        ensures
            r == (DisableAllCtrl { disabled: false, prev_any_disable_all: false }),
    {
        DisableAllCtrl { disabled: false, prev_any_disable_all: false }
    }

    /// Takes in whether some bulb now reports the disable-all signal and
    /// says what to do about it.
    pub fn observe(&mut self, any_disable_all: bool) -> (r: DisableAction)
        ensures
            r == signal_action(*old(self), any_disable_all),
            final(self).prev_any_disable_all == any_disable_all,
            final(self).disabled == old(self).disabled,
    {
        let rising_edge = any_disable_all && !self.prev_any_disable_all;
        self.prev_any_disable_all = any_disable_all;
        if !rising_edge {
            DisableAction::Nothing
        } else if self.disabled {
            DisableAction::Restore
        } else {
            DisableAction::Enter
        }
    }

    /// Records that the chandelier was disabled.
    pub fn enter(&mut self)
        ensures
            final(self).disabled,
            final(self).prev_any_disable_all == old(self).prev_any_disable_all,
    {
        self.disabled = true;
    }

    /// Leaves the disabled state; says whether there was one to leave (only
    /// then is anything restored).
    pub fn restore(&mut self) -> (r: bool)
        ensures
            r == old(self).disabled,
            !final(self).disabled,
            final(self).prev_any_disable_all == old(self).prev_any_disable_all,
    {
        let was = self.disabled;
        self.disabled = false;
        was
    }
}

/// What to do with the stored bulb positions after a status poll.
#[derive(Clone, Copy, Debug, PartialEq, Eq, Structural)]
pub enum RestAction {
    /// Nothing to store.
    Nothing,
    /// Bulbs move: store that the saved positions are stale.
    MarkMoving,
    /// Bulbs have rested long enough: store their positions.
    SavePositions,
}

/// What a status poll found.
#[derive(Clone, Copy, Debug)]
pub enum RestStep {
    /// Some bulb moves; `action` says what to store.
    Moving { action: RestAction },
    /// No bulb moves, and none has since `since`.
    Quiet { since: Instant },
}

/// Watches for the bulbs to come to rest, so that their positions can be
/// stored and the next start-up can skip zeroing.
pub struct RestMonitor {
    quiet_since: Option<Instant>,
}

impl RestMonitor {
    /// The instant since which no bulb has moved, if they are at rest.
    pub closed spec fn spec_quiet_since(self) -> Option<Instant> {
        self.quiet_since
    }

    pub fn new() -> (r: RestMonitor)
        ensures
            r.spec_quiet_since() is None,
    {
        RestMonitor { quiet_since: None }
    }

    /// A wave runs, so the bulbs move: any rest period is over.
    pub fn wave_running(&mut self)
        ensures
            final(self).spec_quiet_since() is None,
    {
        self.quiet_since = None;
    }

    /// Takes in a status poll at `now`. Movement ends the rest period and
    /// marks the stored positions stale unless they already are; a quiet
    /// poll starts the rest period if none runs and reports its start.
    pub fn poll(&mut self, any_moving: bool, store_moving: bool, now: Instant) -> (r: RestStep)
        ensures
            any_moving ==> final(self).spec_quiet_since() is None && r == (RestStep::Moving {
                action: if store_moving {
                    RestAction::Nothing
                } else {
                    RestAction::MarkMoving
                },
            }),
            !any_moving ==> {
                let since = match old(self).spec_quiet_since() {
                    Some(s) => s,
                    None => now,
                };
                &&& final(self).spec_quiet_since() == Some(since)
                &&& r == RestStep::Quiet { since }
            },
    {
        if any_moving {
            self.quiet_since = None;
            let action = if store_moving {
                RestAction::Nothing
            } else {
                RestAction::MarkMoving
            };
            RestStep::Moving { action }
        } else {
            let since = match self.quiet_since {
                Some(s) => s,
                None => now,
            };
            self.quiet_since = Some(since);
            RestStep::Quiet { since }
        }
    }

    /// Once the bulbs have rested long enough, the rest period is closed and
    /// their positions are stored if the stored ones are stale.
    pub fn rested(&mut self, long_enough: bool, store_moving: bool) -> (r: RestAction)
        ensures
            long_enough ==> final(self).spec_quiet_since() is None && r == (if store_moving {
                RestAction::SavePositions
            } else {
                RestAction::Nothing
            }),
            !long_enough ==> final(self).spec_quiet_since() == old(self).spec_quiet_since()
                && r == RestAction::Nothing,
    {
        if long_enough {
            self.quiet_since = None;
            if store_moving {
                RestAction::SavePositions
            } else {
                RestAction::Nothing
            }
        } else {
            RestAction::Nothing
        }
    }
}

/// A disable-all signal that stays on acts once: after it was seen, seeing
/// it again asks for nothing, whatever was done in between.
pub proof fn lemma_held_signal_acts_once(ctrl: DisableAllCtrl, disabled: bool)
    ensures
        signal_action(
            DisableAllCtrl { disabled, prev_any_disable_all: true },
            true,
        ) == DisableAction::Nothing,
        signal_action(ctrl, false) == DisableAction::Nothing,
{
}

/// Two rising edges, with the enter and restore they ask for carried out,
/// bring the switch back where it was: the first enters, the second
/// restores.
pub proof fn lemma_two_edges_toggle(ctrl: DisableAllCtrl)
    requires
        !ctrl.disabled,
        !ctrl.prev_any_disable_all,
    ensures
        signal_action(ctrl, true) == DisableAction::Enter,
        signal_action(
            DisableAllCtrl { disabled: true, prev_any_disable_all: false },
            true,
        ) == DisableAction::Restore,
{
}

} // verus!
