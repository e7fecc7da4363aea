//! The title screen's nickname editor, shared by browser and native clients.
use vstd::prelude::*;
use crate::nickname::{validate, validation, MAX_NICKNAME_CHARS};
use crate::text::{chars_of, push_char};
use crate::native::same_text;
use crate::client::SessionPhase;

verus! {

/// Whether `c` is a control character, as `char::is_control` decides: the
/// Unicode general category Cc, U+0000 to U+001F and U+007F to U+009F.
pub open spec fn char_is_control(c: char) -> bool {
    (c as u32) <= 0x1F || (0x7F <= (c as u32) && (c as u32) <= 0x9F)
}

/// Whether `c` is a control character.
fn is_control(c: char) -> (b: bool)
    ensures
        b == char_is_control(c),
{
    let code = c as u32;
    code <= 0x1F || (0x7F <= code && code <= 0x9F)
}

/// Calls `String::pop`, which removes and returns the last character, if any.
#[verifier::external_body]
fn pop_char(s: &mut String) -> (c: Option<char>)
    ensures
        old(s)@.len() == 0 ==> c is None && final(s)@ == old(s)@,
        old(s)@.len() > 0 ==> c == Some(old(s)@.last()) && final(s)@ == old(s)@.drop_last(),
{
    s.pop()
}

/// The nickname being typed, the error shown under it, whether all of it is
/// selected (the next edit replaces it) and whether an input method is composing.
pub struct NicknameDraft {
    pub value: String,
    pub error: Option<String>,
    pub selected: bool,
    pub composing: bool,
}

impl Default for NicknameDraft {
    fn default() -> (d: Self)
        ensures
            d.value@.len() == 0,
            d.error is None,
            !d.selected,
            !d.composing,
    {
        NicknameDraft { value: String::new(), error: None, selected: false, composing: false }
    }
}

/// The draft text after typing `text` into `value` (replacing it when
/// `selected`): text holding a control character is ignored, and the draft
/// never grows past the nickname limit.
pub open spec fn typed(value: Seq<char>, selected: bool, text: Seq<char>) -> Seq<char> {
    if exists|i: int| 0 <= i < text.len() && char_is_control(#[trigger] text[i]) {
        value
    } else {
        let base = if selected {
            Seq::<char>::empty()
        } else {
            value
        };
        let room = if base.len() < MAX_NICKNAME_CHARS {
            MAX_NICKNAME_CHARS - base.len()
        } else {
            0
        };
        base + text.take(if text.len() < room {
            text.len() as int
        } else {
            room as int
        })
    }
}

impl NicknameDraft {
    /// Type `text` (a key's text or an input method's commit).
    pub fn insert_text(&mut self, text: &str)
        ensures
            final(self).value@ == typed(old(self).value@, old(self).selected, text@),
            final(self).composing == old(self).composing,
            (exists|i: int| 0 <= i < text@.len() && char_is_control(#[trigger] text@[i])) ==> {
                &&& final(self).selected == old(self).selected
                &&& final(self).error == old(self).error
            },
            !(exists|i: int| 0 <= i < text@.len() && char_is_control(#[trigger] text@[i])) ==> {
                &&& !final(self).selected
                &&& final(self).error is None
            },
    {
        let chars = chars_of(text);
        let mut i: usize = 0;
        while i < chars.len()
            invariant
                0 <= i <= chars@.len(),
                chars@ == text@,
                forall|k: int| 0 <= k < i ==> !char_is_control(#[trigger] chars@[k]),
            decreases chars@.len() - i,
        {
            if is_control(chars[i]) {
                return;
            }
            i = i + 1;
        }
        if self.selected {
            self.value = String::new();
            self.selected = false;
        }
        let current = chars_of(self.value.as_str()).len();
        let room: usize = if current < MAX_NICKNAME_CHARS {
            MAX_NICKNAME_CHARS - current
        } else {
            0
        };
        let take: usize = if chars.len() < room {
            chars.len()
        } else {
            room
        };
        let ghost base = self.value@;
        proof {
            assert(!(exists|m: int| 0 <= m < text@.len() && char_is_control(#[trigger] text@[m])));
            assert(base == (if old(self).selected { Seq::<char>::empty() } else { old(self).value@ }));
        }
        let mut k: usize = 0;
        while k < take
            invariant
                0 <= k <= take,
                take <= chars@.len(),
                chars@ == text@,
                self.value@ == base + text@.take(k as int),
                self.composing == old(self).composing,
                !self.selected,
            decreases take - k,
        {
            push_char(&mut self.value, chars[k]);
            assert(text@.take(k + 1) =~= text@.take(k as int).push(chars@[k as int]));
            assert(base + text@.take(k + 1) =~= (base + text@.take(k as int)).push(chars@[k as int]));
            k = k + 1;
        }
        self.error = None;
    }

    /// Backspace: clear a selected draft, else remove its last character.
    pub fn erase(&mut self)
        ensures
            final(self).value@ == (if old(self).selected {
                Seq::<char>::empty()
            } else if old(self).value@.len() > 0 {
                old(self).value@.drop_last()
            } else {
                old(self).value@
            }),
            !final(self).selected,
            final(self).error is None,
            final(self).composing == old(self).composing,
    {
        if self.selected {
            self.value = String::new();
            self.selected = false;
        } else {
            let _ = pop_char(&mut self.value);
        }
        self.error = None;
    }

    /// Select the whole draft, so that the next edit replaces it.
    pub fn select_all(&mut self)
        ensures
            final(self).value@ == old(self).value@,
            final(self).selected,
            final(self).error == old(self).error,
            final(self).composing == old(self).composing,
    {
        self.selected = true;
    }

    /// Submit the draft: a valid nickname replaces the draft by its validated
    /// form and is returned for joining; otherwise the reason is shown.
    pub fn submit(&mut self) -> (joined: Option<String>)
        ensures
            final(self).selected == old(self).selected,
            final(self).composing == old(self).composing,
            match validation(old(self).value@) {
                Ok(name) => {
                    &&& joined matches Some(n) && n@ == name
                    &&& final(self).value@ == name
                    &&& final(self).error is None
                },
                Err(reason) => {
                    &&& joined is None
                    &&& final(self).value@ == old(self).value@
                    &&& final(self).error matches Some(e) && e@ == reason
                },
            },
    {
        match validate(self.value.as_str()) {
            Ok(name) => {
                self.value = name.clone();
                self.error = None;
                Some(name)
            },
            Err(reason) => {
                self.error = Some(reason.to_owned());
                None
            },
        }
    }
}

/// The key of a keyboard event, as far as the editor tells keys apart.
pub enum KeyKind {
    Enter,
    Backspace,
    /// A key that types these characters (its logical key).
    Character(String),
    Other,
}

/// A keyboard event: its key, whether it is a press (not a release), whether
/// it repeats a held key, and the text it types, if any.
pub struct KeyPress {
    pub key: KeyKind,
    pub pressed: bool,
    pub repeat: bool,
    pub text: Option<String>,
}

/// Which of the editor's rules a keyboard event falls under.
pub enum KeyRule {
    /// Releases, and every key while an input method composes, are ignored.
    Skip,
    /// Enter (not repeated, and no text committed this frame) submits.
    Submit,
    /// Backspace erases.
    Erase,
    /// Ctrl/Cmd with A selects everything.
    SelectAll,
    /// Any other key without a modifier, when no text was committed this frame, types its text.
    Type,
    /// Everything else does nothing.
    Nothing,
}

/// The rule for `press`, while an input method is `composing` (or not), a
/// Ctrl or Cmd `modifier` is held (or not), and input-method text was
/// `committed` earlier this frame (or not).
pub open spec fn key_rule(press: KeyPress, composing: bool, modifier: bool, committed: bool) -> KeyRule {
    if !press.pressed || composing {
        KeyRule::Skip
    } else {
        match press.key {
            KeyKind::Enter if !press.repeat && !committed => KeyRule::Submit,
            KeyKind::Backspace => KeyRule::Erase,
            KeyKind::Character(v) if modifier && (v@ == "a"@ || v@ == "A"@) => KeyRule::SelectAll,
            _ => if !modifier && !committed {
                KeyRule::Type
            } else {
                KeyRule::Nothing
            },
        }
    }
}

/// What a keyboard event asks of the rest of the client.
pub struct KeyOutcome {
    /// Submit the draft.
    pub submit: bool,
    /// The draft was edited: the session's last error is cleared.
    pub edited: bool,
}

impl NicknameDraft {
    /// Handle one keyboard event on the title screen.
    pub fn press_key(&mut self, press: &KeyPress, modifier: bool, committed: bool) -> (out: KeyOutcome)
        ensures
            final(self).composing == old(self).composing,
            match key_rule(*press, old(self).composing, modifier, committed) {
                KeyRule::Submit => out.submit && !out.edited && final(self).value@ == old(self).value@
                    && final(self).selected == old(self).selected && final(self).error == old(self).error,
                KeyRule::Erase => {
                    &&& !out.submit && out.edited
                    &&& final(self).value@ == (if old(self).selected {
                        Seq::<char>::empty()
                    } else if old(self).value@.len() > 0 {
                        old(self).value@.drop_last()
                    } else {
                        old(self).value@
                    })
                    &&& !final(self).selected
                    &&& final(self).error is None
                },
                KeyRule::SelectAll => !out.submit && !out.edited && final(self).value@ == old(self).value@
                    && final(self).selected && final(self).error == old(self).error,
                KeyRule::Type => match press.text {
                    Some(t) => {
                        &&& !out.submit && out.edited
                        &&& final(self).value@ == typed(old(self).value@, old(self).selected, t@)
                        &&& (exists|i: int| 0 <= i < t@.len() && char_is_control(#[trigger] t@[i])) ==> {
                            &&& final(self).selected == old(self).selected
                            &&& final(self).error == old(self).error
                        }
                        &&& !(exists|i: int| 0 <= i < t@.len() && char_is_control(#[trigger] t@[i])) ==> {
                            &&& !final(self).selected
                            &&& final(self).error is None
                        }
                    },
                    None => !out.submit && !out.edited && final(self).value@ == old(self).value@
                        && final(self).selected == old(self).selected && final(self).error == old(self).error,
                },
                _ => !out.submit && !out.edited && final(self).value@ == old(self).value@
                    && final(self).selected == old(self).selected && final(self).error == old(self).error,
            },
    {
        let unchanged = KeyOutcome { submit: false, edited: false };
        if !press.pressed || self.composing {
            return unchanged;
        }
        let select = match &press.key {
            KeyKind::Character(v) => modifier && (same_text(v.as_str(), "a") || same_text(v.as_str(), "A")),
            _ => false,
        };
        match &press.key {
            KeyKind::Enter if !press.repeat && !committed => {
                return KeyOutcome { submit: true, edited: false };
            },
            KeyKind::Backspace => {
                self.erase();
                return KeyOutcome { submit: false, edited: true };
            },
            _ => {},
        }
        if select {
            self.select_all();
            return unchanged;
        }
        if !modifier && !committed {
            match &press.text {
                Some(t) => {
                    self.insert_text(t.as_str());
                    KeyOutcome { submit: false, edited: true }
                },
                None => unchanged,
            }
        } else {
            unchanged
        }
    }
}

impl NicknameDraft {
    /// An input method shows `text` while composing: keys are held back
    /// while the composition is not empty.
    pub fn ime_preedit(&mut self, text: &str)
        ensures
            final(self).composing == (text@.len() > 0),
            final(self).value@ == old(self).value@,
            final(self).selected == old(self).selected,
            final(self).error == old(self).error,
    {
        self.composing = chars_of(text).len() > 0;
    }

    /// An input method commits `text`: it is typed, and the composition ends.
    pub fn ime_commit(&mut self, text: &str)
        ensures
            final(self).value@ == typed(old(self).value@, old(self).selected, text@),
            !final(self).composing,
            (exists|i: int| 0 <= i < text@.len() && char_is_control(#[trigger] text@[i])) ==> {
                &&& final(self).selected == old(self).selected
                &&& final(self).error == old(self).error
            },
            !(exists|i: int| 0 <= i < text@.len() && char_is_control(#[trigger] text@[i])) ==> {
                &&& !final(self).selected
                &&& final(self).error is None
            },
    {
        self.insert_text(text);
        self.composing = false;
    }

    /// The input method was turned off: nothing is being composed.
    pub fn ime_disabled(&mut self)
        ensures
            !final(self).composing,
            final(self).value@ == old(self).value@,
            final(self).selected == old(self).selected,
            final(self).error == old(self).error,
    {
        self.composing = false;
    }
}

/// Whether the title screen takes keyboard and input-method text: on the
/// title screen, once loading is complete.
pub fn editing_open(phase: SessionPhase, percent: u8) -> (open: bool)
    ensures
        open == (phase == SessionPhase::Title && percent == 100),
{
    phase == SessionPhase::Title && percent == 100
}

/// The draft never holds more than the nickname limit through typing.
pub proof fn lemma_typed_bounded(value: Seq<char>, selected: bool, text: Seq<char>)
    requires
        value.len() <= MAX_NICKNAME_CHARS,
    ensures
        typed(value, selected, text).len() <= MAX_NICKNAME_CHARS,
{
}

} // verus!
