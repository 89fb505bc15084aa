//! What the recorder decides: the modifier state of a keyboard, the name
//! recorded for a key, and which keystroke, bigram and trigram rows each
//! event adds to the store.

use vstd::prelude::*;
use vstd::string::*;
use vstd::utf8::is_ascii_chars;
use vstd::multiset::Multiset;
use crate::clock::{millis_since_epoch, epoch_millis_to_i64};
use crate::db::{Db, DbError, KeyRow, BigramRow, TrigramRow};
use crate::sqlite::{could_see, written};
use crate::text::{join, join_seq, views};

verus! {

/// Linux input event code of the left shift key.
pub const KEY_LEFTSHIFT: u16 = 42;
/// Linux input event code of the right shift key.
pub const KEY_RIGHTSHIFT: u16 = 54;
/// Linux input event code of the left control key.
pub const KEY_LEFTCTRL: u16 = 29;
/// Linux input event code of the right control key.
pub const KEY_RIGHTCTRL: u16 = 97;
/// Linux input event code of the left alt key.
pub const KEY_LEFTALT: u16 = 56;
/// Linux input event code of the right alt key.
pub const KEY_RIGHTALT: u16 = 100;
/// Linux input event code of the left meta (super) key.
pub const KEY_LEFTMETA: u16 = 125;
/// Linux input event code of the right meta (super) key.
pub const KEY_RIGHTMETA: u16 = 126;

/// What the recorder receives: a key press, or a change of the focused window.
pub enum Event {
    Key { key: String, modifiers: String, ts: i64 },
    AppChange { class: String, title: String },
}

/// Which modifier keys are held down.
pub struct ModifierState {
    pub shift: bool,
    pub ctrl: bool,
    pub alt: bool,
    pub sup: bool,
}

pub open spec fn is_shift(code: u16) -> bool {
    code == KEY_LEFTSHIFT || code == KEY_RIGHTSHIFT
}

pub open spec fn is_ctrl(code: u16) -> bool {
    code == KEY_LEFTCTRL || code == KEY_RIGHTCTRL
}

pub open spec fn is_alt(code: u16) -> bool {
    code == KEY_LEFTALT || code == KEY_RIGHTALT
}

pub open spec fn is_super(code: u16) -> bool {
    code == KEY_LEFTMETA || code == KEY_RIGHTMETA
}

/// Whether the code is one of the eight modifier keys.
pub open spec fn modifier_code(code: u16) -> bool {
    is_shift(code) || is_ctrl(code) || is_alt(code) || is_super(code)
}

/// The names of the held modifiers, in the order ctrl, alt, super, shift.
pub open spec fn modifier_names(ctrl: bool, alt: bool, sup: bool, shift: bool) -> Seq<Seq<char>> {
    (if ctrl { seq!["ctrl"@] } else { Seq::empty() }) + (if alt { seq!["alt"@] } else { Seq::empty() }) + (
    if sup { seq!["super"@] } else { Seq::empty() }) + (if shift { seq!["shift"@] } else { Seq::empty() })
}

/// The text recorded for a set of held modifiers: their names joined by `+`.
pub open spec fn modifiers_text(ctrl: bool, alt: bool, sup: bool, shift: bool) -> Seq<char> {
    join_seq(modifier_names(ctrl, alt, sup, shift), "+"@)
}

/// The state after a key went down.
pub open spec fn pressed(s: ModifierState, code: u16) -> ModifierState {
    ModifierState {
        shift: s.shift || is_shift(code),
        ctrl: s.ctrl || is_ctrl(code),
        alt: s.alt || is_alt(code),
        sup: s.sup || is_super(code),
    }
}

/// The state after a key went up.
pub open spec fn released(s: ModifierState, code: u16) -> ModifierState {
    ModifierState {
        shift: s.shift && !is_shift(code),
        ctrl: s.ctrl && !is_ctrl(code),
        alt: s.alt && !is_alt(code),
        sup: s.sup && !is_super(code),
    }
}

/// Whether the modifier that `code` belongs to is held.
pub open spec fn holds(s: ModifierState, code: u16) -> bool {
    (is_shift(code) && s.shift) || (is_ctrl(code) && s.ctrl) || (is_alt(code) && s.alt) || (is_super(code)
        && s.sup)
}

/// The text of the held modifiers.
pub open spec fn held_text(s: ModifierState) -> Seq<char> {
    modifiers_text(s.ctrl, s.alt, s.sup, s.shift)
}

impl Default for ModifierState {
    /// No modifier held.
    fn default() -> (s: ModifierState)
        ensures
            s == (ModifierState { shift: false, ctrl: false, alt: false, sup: false }),
    {
        ModifierState { shift: false, ctrl: false, alt: false, sup: false }
    }
}

impl ModifierState {
    /// A modifier key went down: its modifier is now held; other keys change nothing.
    pub fn press(&mut self, code: u16)
        ensures
            *final(self) == pressed(*old(self), code),
    {
        if code == KEY_LEFTSHIFT || code == KEY_RIGHTSHIFT {
            self.shift = true;
        } else if code == KEY_LEFTCTRL || code == KEY_RIGHTCTRL {
            self.ctrl = true;
        } else if code == KEY_LEFTALT || code == KEY_RIGHTALT {
            self.alt = true;
        } else if code == KEY_LEFTMETA || code == KEY_RIGHTMETA {
            self.sup = true;
        }
    }

    /// A modifier key went up: its modifier is no longer held (either key of
    /// the pair releases it); other keys change nothing.
    pub fn release(&mut self, code: u16)
        ensures
            *final(self) == released(*old(self), code),
    {
        if code == KEY_LEFTSHIFT || code == KEY_RIGHTSHIFT {
            self.shift = false;
        } else if code == KEY_LEFTCTRL || code == KEY_RIGHTCTRL {
            self.ctrl = false;
        } else if code == KEY_LEFTALT || code == KEY_RIGHTALT {
            self.alt = false;
        } else if code == KEY_LEFTMETA || code == KEY_RIGHTMETA {
            self.sup = false;
        }
    }

    /// Whether the code is a modifier key (shift, ctrl, alt or meta, left or right).
    pub fn is_modifier(code: u16) -> (b: bool)
        ensures
            b == modifier_code(code),
    {
        code == KEY_LEFTSHIFT || code == KEY_RIGHTSHIFT || code == KEY_LEFTCTRL || code == KEY_RIGHTCTRL
            || code == KEY_LEFTALT || code == KEY_RIGHTALT || code == KEY_LEFTMETA || code
            == KEY_RIGHTMETA
    }

    /// The held modifiers as text, e.g. `ctrl+shift`; empty when none is held.
    pub fn as_string(&self) -> (r: String)
        ensures
            r@ == held_text(*self),
    {
        let mut parts: Vec<String> = Vec::new();
        if self.ctrl {
            parts.push(String::from_str("ctrl"));
        }
        if self.alt {
            parts.push(String::from_str("alt"));
        }
        if self.sup {
            parts.push(String::from_str("super"));
        }
        if self.shift {
            parts.push(String::from_str("shift"));
        }
        assert(views(parts@) =~= modifier_names(self.ctrl, self.alt, self.sup, self.shift));
        join(&parts, "+")
    }

    /// A key event of a keyboard: a release (value 0) or a press (value 1)
    /// updates the held modifiers; a press of a key that is not a modifier
    /// gives the key's name and the modifiers held. Repeats (value 2) and any
    /// other value change nothing.
    pub fn on_key_event(&mut self, code: u16, value: i32) -> (r: Option<(String, String)>)
        ensures
            value == 0 ==> *final(self) == released(*old(self), code) && r is None,
            value == 1 ==> {
                &&& *final(self) == pressed(*old(self), code)
                &&& r is Some <==> !modifier_code(code)
                &&& r matches Some((k, m)) ==> k@ == key_name_text(code) && m@ == held_text(*final(self))
            },
            value != 0 && value != 1 ==> *final(self) == *old(self) && r is None,
    {
        if value == 0 {
            self.release(code);
            None
        } else if value == 1 {
            self.press(code);
            if !ModifierState::is_modifier(code) {
                Some((key_name(code), self.as_string()))
            } else {
                None
            }
        } else {
            None
        }
    }
}

/// The `Debug` text of the evdev key code `code`: the name of its constant
/// (such as `KEY_A` or `BTN_LEFT`), or `unknown key: <code>`.
pub uninterp spec fn key_code_label(code: u16) -> Seq<char>;

/// `format!("{:?}", evdev::KeyCode::new(code))`. Its result is named
/// `key_code_label`; evdev's `Debug` impl writes either the constant's
/// identifier or `unknown key: <code>`, so the text is ASCII.
#[verifier::external_body]
fn key_code_debug(code: u16) -> (r: String)
    ensures
        r@ == key_code_label(code),
        is_ascii_chars(r@),
{
    format!("{:?}", evdev::KeyCode::new(code))
}

/// ASCII lower case of one character.
pub open spec fn lower_char(c: char) -> char {
    if 'A' <= c && c <= 'Z' {
        ((c as u32) + 32) as char
    } else {
        c
    }
}

/// ASCII lower case of a text.
pub open spec fn ascii_lower(s: Seq<char>) -> Seq<char> {
    s.map_values(|c: char| lower_char(c))
}

/// `str::to_lowercase`. On ASCII text, which is all it is given here, the
/// documented Unicode lower-case mapping changes `A`..`Z` to `a`..`z` and
/// keeps every other character. Of other text nothing is stated.
#[verifier::external_body]
fn to_lowercase(s: &str) -> (r: String)
    ensures
        is_ascii_chars(s@) ==> r@ == ascii_lower(s@),
{
    s.to_lowercase()
}

/// `s` without the leading `prefix`, or `s` itself when it does not start with it.
pub open spec fn strip_prefix_seq(s: Seq<char>, prefix: Seq<char>) -> Seq<char> {
    if prefix.len() <= s.len() && s.subrange(0, prefix.len() as int) == prefix {
        s.subrange(prefix.len() as int, s.len() as int)
    } else {
        s
    }
}

/// The name recorded for a key code: its evdev name without `KEY_`, in lower case.
pub open spec fn key_name_text(code: u16) -> Seq<char> {
    ascii_lower(strip_prefix_seq(key_code_label(code), "KEY_"@))
}

/// The name recorded for a key: evdev's name of the code without the `KEY_`
/// prefix, in lower case (`KEY_A` gives `a`, `BTN_LEFT` gives `btn_left`).
pub fn key_name(code: u16) -> (r: String)
    ensures
        r@ == key_name_text(code),
{
    let raw = key_code_debug(code);
    let s = raw.as_str();
    let n = s.unicode_len();
    proof {
        reveal_strlit("KEY_");
    }
    let has_prefix = n >= 4 && s.get_char(0) == 'K' && s.get_char(1) == 'E' && s.get_char(2) == 'Y'
        && s.get_char(3) == '_';
    let stripped = if has_prefix {
        s.substring_char(4, n)
    } else {
        s
    };
    proof {
        if has_prefix {
            assert(s@.subrange(0, 4) =~= "KEY_"@);
        } else {
            assert(!(4 <= s@.len() && s@.subrange(0, 4) == "KEY_"@)) by {
                if 4 <= s@.len() && s@.subrange(0, 4) == "KEY_"@ {
                    assert(s@.subrange(0, 4)[0] == 'K');
                    assert(s@.subrange(0, 4)[1] == 'E');
                    assert(s@.subrange(0, 4)[2] == 'Y');
                    assert(s@.subrange(0, 4)[3] == '_');
                }
            }
        }
        assert(stripped@ == strip_prefix_seq(key_code_label(code), "KEY_"@));
        assert(is_ascii_chars(stripped@)) by {
            assert forall|i: int| 0 <= i < stripped@.len() implies (stripped@[i] as u32) < 128 by {
                if has_prefix {
                    assert(stripped@[i] == s@[i + 4]);
                }
            }
        }
    }
    to_lowercase(stripped)
}

/// The time of a key press: milliseconds since the Unix epoch (cast to
/// `i64` as `as` does), none when the clock reads before the epoch.
pub fn now_ms() -> (r: Option<i64>) {
    epoch_millis_to_i64(millis_since_epoch())
}

/// A remembered key press: (key, modifiers, ts).
pub type Press = (Seq<char>, Seq<char>, i64);

pub open spec fn press_view(p: Option<(String, String, i64)>) -> Option<Press> {
    match p {
        Some(t) => Some((t.0@, t.1@, t.2)),
        None => None,
    }
}

/// The bigram row a press adds: one when there is a previous press in the
/// same window focus and it came less than `win` ms before.
pub open spec fn bigram_for(
    prev: Option<Press>,
    key: Seq<char>,
    mods: Seq<char>,
    ts: i64,
    class: Seq<char>,
    win: int,
) -> Option<BigramRow> {
    match prev {
        Some(p) => if ts - p.2 < win {
            Some((ts, p.0, p.1, key, mods, class))
        } else {
            None
        },
        None => None,
    }
}

/// The trigram row a press adds: one when it adds a bigram and the press
/// before the previous one came less than `win` ms before the previous one.
pub open spec fn trigram_for(
    prev_prev: Option<Press>,
    prev: Option<Press>,
    key: Seq<char>,
    mods: Seq<char>,
    ts: i64,
    class: Seq<char>,
    win: int,
) -> Option<TrigramRow> {
    match (prev_prev, prev) {
        (Some(pp), Some(p)) => if ts - p.2 < win && p.2 - pp.2 < win {
            Some((ts, pp.0, pp.1, p.0, p.1, key, mods, class))
        } else {
            None
        },
        _ => None,
    }
}

/// The multiset with the optional row added.
pub open spec fn add_row<R>(m: Multiset<R>, row: Option<R>) -> Multiset<R> {
    match row {
        Some(r) => m.insert(r),
        None => m,
    }
}

/// Which insert failed.
#[derive(Debug)]
pub enum RecordError {
    Trigram(DbError),
    Bigram(DbError),
    Keystroke(DbError),
}

/// The recorder's state between events.
pub struct Recorder {
    /// Bigram and trigram time window in milliseconds.
    pub window_ms: u64,
    pub app_class: String,
    pub app_title: String,
    pub prev: Option<(String, String, i64)>,
    pub prev_prev: Option<(String, String, i64)>,
}

impl Recorder {
    /// A recorder with the given window, no focused application and no press yet.
    pub fn new(window_ms: u64) -> (r: Recorder)
        ensures
            r.window_ms == window_ms,
            r.app_class@ == Seq::<char>::empty(),
            r.app_title@ == Seq::<char>::empty(),
            r.prev is None,
            r.prev_prev is None,
    {
        Recorder { window_ms, app_class: String::new(), app_title: String::new(), prev: None, prev_prev: None }
    }

    /// The window as the signed number of milliseconds compared against.
    pub open spec fn window(&self) -> int {
        (self.window_ms as i64) as int
    }

    /// Handles one event. A change of focus sets the application and forgets
    /// the previous presses. A key press adds, in this order, its trigram row
    /// (when due), its bigram row (when due) and its keystroke row, then
    /// becomes the previous press. The first insert that fails ends the call
    /// with its error, before the keystroke row is added. Each insert is
    /// stated over the rows it finds (`could_see`).
    pub fn handle(&mut self, db: &mut Db, event: Event) -> (r: Result<(), RecordError>)
        ensures
            final(db).in_memory() == old(db).in_memory(),
            match event {
                Event::AppChange { class, title } => {
                    &&& r is Ok
                    &&& final(self).app_class@ == class@
                    &&& final(self).app_title@ == title@
                    &&& final(self).prev is None
                    &&& final(self).prev_prev is None
                    &&& final(self).window_ms == old(self).window_ms
                    &&& *final(db) == *old(db)
                },
                Event::Key { key, modifiers, ts } => {
                    let prev = press_view(old(self).prev);
                    let prev_prev = press_view(old(self).prev_prev);
                    let class = old(self).app_class@;
                    let row = (ts, key@, modifiers@, class, old(self).app_title@);
                    &&& r is Ok ==> exists|k: Multiset<KeyRow>|
                        #[trigger] could_see(old(db).in_memory(), old(db).keystrokes(), k) && final(db).keystrokes()
                            == k.insert(row)
                    &&& old(db).in_memory() ==> {
                        &&& r is Ok ==> {
                            &&& final(db).trigrams() == add_row(
                                old(db).trigrams(),
                                trigram_for(prev_prev, prev, key@, modifiers@, ts, class, old(self).window()),
                            )
                            &&& final(db).bigrams() == add_row(
                                old(db).bigrams(),
                                bigram_for(prev, key@, modifiers@, ts, class, old(self).window()),
                            )
                            &&& final(db).keystrokes() == old(db).keystrokes().insert(row)
                        }
                        &&& r is Err ==> final(db).keystrokes() == old(db).keystrokes()
                    }
                    &&& r is Ok ==> {
                        &&& press_view(final(self).prev) == Some((key@, modifiers@, ts))
                        &&& press_view(final(self).prev_prev) == prev
                    }
                    &&& final(self).app_class@ == old(self).app_class@
                    &&& final(self).app_title@ == old(self).app_title@
                    &&& final(self).window_ms == old(self).window_ms
                },
            },
    {
        match event {
            Event::AppChange { class, title } => {
                self.app_class = class;
                self.app_title = title;
                self.prev = None;
                self.prev_prev = None;
                Ok(())
            },
            Event::Key { key, modifiers, ts } => {
                let win = self.window_ms as i64;
                match &self.prev {
                    Some((pk, pm, pts)) => {
                        let pts = *pts;
                        if (ts as i128) - (pts as i128) < (win as i128) {
                            match &self.prev_prev {
                                Some((ppk, ppm, ppts)) => {
                                    if (pts as i128) - (*ppts as i128) < (win as i128) {
                                        if let Err(e) = db.insert_trigram(
                                            ts,
                                            ppk.as_str(),
                                            ppm.as_str(),
                                            pk.as_str(),
                                            pm.as_str(),
                                            key.as_str(),
                                            modifiers.as_str(),
                                            self.app_class.as_str(),
                                        ) {
                                            return Err(RecordError::Trigram(e));
                                        }
                                    }
                                },
                                None => {},
                            }
                            if let Err(e) = db.insert_bigram(
                                ts,
                                pk.as_str(),
                                pm.as_str(),
                                key.as_str(),
                                modifiers.as_str(),
                                self.app_class.as_str(),
                            ) {
                                return Err(RecordError::Bigram(e));
                            }
                        }
                    },
                    None => {},
                }
                let ghost before = *db;
                if let Err(e) = db.insert(ts, key.as_str(), modifiers.as_str(), self.app_class.as_str(), self.app_title.as_str()) {
                    return Err(RecordError::Keystroke(e));
                }
                proof {
                    let row = (ts, key@, modifiers@, self.app_class@, self.app_title@);
                    let k = choose|k: Multiset<KeyRow>|
                        could_see(before.in_memory(), before.keystrokes(), k) && written(
                            k,
                            true,
                            k.insert(row),
                            db.keystrokes(),
                        );
                    assert(could_see(old(db).in_memory(), old(db).keystrokes(), k));
                }
                let last = self.prev.take();
                self.prev_prev = last;
                self.prev = Some((key, modifiers, ts));
                Ok(())
            },
        }
    }
}

/// Releasing a key that was pressed from a state where its modifier was not
/// held gives that state back; a key that is no modifier changes nothing.
pub proof fn law_release_undoes_press(s: ModifierState, code: u16)
    requires
        !holds(s, code),
    ensures
        released(pressed(s, code), code) == s,
        !modifier_code(code) ==> pressed(s, code) == s && released(s, code) == s,
{
}

/// Either key of a pair sets and clears the same modifier: pressing the left
/// key and releasing the right one (or the other way round) leaves it up.
pub proof fn law_pair_keys_share_modifier(s: ModifierState)
    ensures
        !released(pressed(s, KEY_LEFTSHIFT), KEY_RIGHTSHIFT).shift,
        !released(pressed(s, KEY_RIGHTSHIFT), KEY_LEFTSHIFT).shift,
        !released(pressed(s, KEY_LEFTCTRL), KEY_RIGHTCTRL).ctrl,
        !released(pressed(s, KEY_RIGHTCTRL), KEY_LEFTCTRL).ctrl,
        !released(pressed(s, KEY_LEFTALT), KEY_RIGHTALT).alt,
        !released(pressed(s, KEY_RIGHTALT), KEY_LEFTALT).alt,
        !released(pressed(s, KEY_LEFTMETA), KEY_RIGHTMETA).sup,
        !released(pressed(s, KEY_RIGHTMETA), KEY_LEFTMETA).sup,
{
}

/// The modifier text is empty exactly when no modifier is held, and then a
/// key's label is the bare key.
pub proof fn law_no_modifiers_no_text(s: ModifierState)
    ensures
        (held_text(s).len() == 0) <==> (!s.ctrl && !s.alt && !s.sup && !s.shift),
{
    let names = modifier_names(s.ctrl, s.alt, s.sup, s.shift);
    reveal_strlit("ctrl");
    reveal_strlit("alt");
    reveal_strlit("super");
    reveal_strlit("shift");
    if names.len() == 0 {
        assert(held_text(s) == join_seq(names, "+"@));
    } else {
        lemma_join_nonempty(names, "+"@);
    }
}

/// Joining texts that are not empty gives a text that is not empty.
proof fn lemma_join_nonempty(parts: Seq<Seq<char>>, sep: Seq<char>)
    requires
        parts.len() > 0,
        forall|i: int| 0 <= i < parts.len() ==> #[trigger] parts[i].len() > 0,
    ensures
        join_seq(parts, sep).len() > 0,
    decreases parts.len(),
{
    if parts.len() > 1 {
        assert(parts.last() == parts[parts.len() - 1]);
    }
}

/// A press adds a trigram only where it adds a bigram, and the trigram ends
/// with that bigram's two presses.
pub proof fn law_trigram_extends_bigram(
    prev_prev: Option<Press>,
    prev: Option<Press>,
    key: Seq<char>,
    mods: Seq<char>,
    ts: i64,
    class: Seq<char>,
    win: int,
)
    ensures
        trigram_for(prev_prev, prev, key, mods, ts, class, win) matches Some(t) ==> {
            &&& bigram_for(prev, key, mods, ts, class, win) matches Some(b)
            &&& (t.3, t.4, t.5, t.6, t.7) == (b.1, b.2, b.3, b.4, b.5)
            &&& t.0 == b.0
        },
{
}

/// Bigrams and trigrams never span a change of focus: with no previous press
/// (the state after an application change) a press adds neither.
pub proof fn law_focus_change_breaks_sequences(
    prev_prev: Option<Press>,
    key: Seq<char>,
    mods: Seq<char>,
    ts: i64,
    class: Seq<char>,
    win: int,
)
    ensures
        bigram_for(None, key, mods, ts, class, win) is None,
        trigram_for(prev_prev, None, key, mods, ts, class, win) is None,
{
}

/// A bigram is added exactly when the previous press came less than the
/// window before; it pairs the previous press with this one, in the
/// application focused now.
pub proof fn law_bigram_within_window(p: Press, key: Seq<char>, mods: Seq<char>, ts: i64, class: Seq<char>, win: int)
    ensures
        bigram_for(Some(p), key, mods, ts, class, win) is Some <==> ts - p.2 < win,
        ts - p.2 < win ==> bigram_for(Some(p), key, mods, ts, class, win) == Some(
            (ts, p.0, p.1, key, mods, class),
        ),
{
}

/// A press adds a trigram exactly when it adds a bigram and the press before
/// the previous one came less than the window before the previous one (the
/// three presses form one sequence); the trigram is the three presses, in
/// order, in the application focused now.
pub proof fn law_trigram_within_window(
    pp: Press,
    p: Press,
    key: Seq<char>,
    mods: Seq<char>,
    ts: i64,
    class: Seq<char>,
    win: int,
)
    ensures
        trigram_for(Some(pp), Some(p), key, mods, ts, class, win) is Some <==> (ts - p.2 < win && p.2 - pp.2
            < win),
        ts - p.2 < win && p.2 - pp.2 < win ==> trigram_for(Some(pp), Some(p), key, mods, ts, class, win) == Some(
            (ts, pp.0, pp.1, p.0, p.1, key, mods, class),
        ),
        p.2 - pp.2 >= win ==> trigram_for(Some(pp), Some(p), key, mods, ts, class, win) is None,
{
}

/// Lower-casing turns each of `A`..`Z` into the letter at the same place in
/// `a`..`z` and keeps every other character.
pub proof fn law_lower_case(c: char)
    ensures
        'A' <= c <= 'Z' ==> 'a' <= lower_char(c) <= 'z' && lower_char(c) as int - 'a' as int == c as int
            - 'A' as int,
        !('A' <= c <= 'Z') ==> lower_char(c) == c,
        ascii_lower(seq![c]) == seq![lower_char(c)],
{
    assert(ascii_lower(seq![c]) =~= seq![lower_char(c)]);
}

} // verus!
