//! What a click on a button asks of the pool, and whether the one who
//! clicked may ask it.

use vstd::prelude::*;
use vstd::string::*;

verus! {

/// Whether the character is one of the ten decimal digits.
pub open spec fn is_digit(c: char) -> bool {
    48 <= c as u32 <= 57
}

/// What a decimal digit counts for.
pub open spec fn digit_of(c: char) -> nat {
    (c as u32 - 48) as nat
}

/// The number that a sequence of decimal digits writes.
pub open spec fn number(digits: Seq<char>) -> nat
    decreases digits.len(),
{
    if digits.len() == 0 {
        0
    } else {
        number(digits.drop_last()) * 10 + digit_of(digits.last())
    }
}

/// Whether the text holds decimal digits only.
pub open spec fn all_digits(text: Seq<char>) -> bool {
    forall|i: int| 0 <= i < text.len() ==> is_digit(#[trigger] text[i])
}

/// The text without a plus sign at its start.
pub open spec fn unsigned(text: Seq<char>) -> Seq<char> {
    if text.len() > 0 && text[0] == '+' {
        text.skip(1)
    } else {
        text
    }
}

/// The index that `text` writes: one or more decimal digits after an
/// optional plus sign, where the number fits a `usize`.
pub open spec fn index_of(text: Seq<char>) -> Option<usize> {
    let digits = unsigned(text);
    if digits.len() > 0 && all_digits(digits) && number(digits) <= usize::MAX {
        Some(number(digits) as usize)
    } else {
        None
    }
}

/// A number never gets smaller by writing more digits behind it.
proof fn lemma_number_grows(digits: Seq<char>, k: int)
    requires
        0 <= k <= digits.len(),
    ensures
        number(digits.take(k)) <= number(digits),
    decreases digits.len(),
{
    if k < digits.len() {
        lemma_number_grows(digits.drop_last(), k);
        assert(digits.drop_last().take(k) =~= digits.take(k));
    } else {
        assert(digits.take(k) =~= digits);
    }
}

/// Reads an index written in decimal digits.
pub fn parse_index(text: &str) -> (index: Option<usize>)
    ensures
        index == index_of(text@),
{
    let n = text.unicode_len();
    let start: usize = if n > 0 && text.get_char(0) == '+' {
        1
    } else {
        0
    };
    let ghost digits = unsigned(text@);
    if start == n {
        return None;
    }
    let mut value: usize = 0;
    let mut i: usize = start;
    assert(digits.take(0) =~= Seq::empty());
    while i < n
        invariant
            start <= i <= n,
            n == text@.len(),
            digits == unsigned(text@),
            digits.len() == n - start,
            forall|j: int| 0 <= j < digits.len() ==> digits[j] == text@[j + start],
            value == number(digits.take(i - start)),
            all_digits(digits.take(i - start)),
        decreases n - i,
    {
        let c = text.get_char(i);
        let code = c as u32;
        proof {
            assert(digits[i - start] == c);
            assert(digits.take(i - start + 1).drop_last() =~= digits.take(i - start));
            assert(digits.take(i - start + 1).last() == c);
        }
        if code < 48 || code > 57 {
            return None;
        }
        let d = (code - 48) as usize;
        if value > (usize::MAX - d) / 10 {
            proof {
                lemma_number_grows(digits, i - start + 1);
            }
            return None;
        }
        value = value * 10 + d;
        proof {
            let next = digits.take(i - start + 1);
            assert forall|j: int| 0 <= j < next.len() implies is_digit(#[trigger] next[j]) by {
                if j < i - start {
                    assert(digits.take(i - start)[j] == next[j]);
                }
            }
        }
        i += 1;
    }
    proof {
        assert(digits.take(i - start) =~= digits);
    }
    Some(value)
}

/// The buttons that the pool shows.
#[derive(Clone, Copy, PartialEq, Eq, Structural, Debug)]
pub enum Button {
    /// One of the preset stakes, by its place in the list of presets.
    Stake(usize),
    /// Calls a reset off.
    Cancel,
    /// Confirms a reset.
    Reset,
    Lock,
    Abort,
    /// Declares the option it stands under the winner.
    Win,
    /// No button of the pool.
    Other,
}

/// The button that an identifier names. An identifier that writes an index
/// names a preset stake, whatever else it may look like.
pub open spec fn button_of(id: Seq<char>) -> Button {
    match index_of(id) {
        Some(i) => Button::Stake(i),
        None => if id == "cancel"@ {
            Button::Cancel
        } else if id == "reset"@ {
            Button::Reset
        } else if id == "lock"@ {
            Button::Lock
        } else if id == "abort"@ {
            Button::Abort
        } else if id == "win"@ {
            Button::Win
        } else {
            Button::Other
        },
    }
}

/// Tells which button an identifier names.
pub fn read_button(id: &str) -> (button: Button)
    ensures
        button == button_of(id@),
{
    if let Some(i) = parse_index(id) {
        return Button::Stake(i);
    }
    let name = id.to_owned();
    if name == "cancel".to_owned() {
        Button::Cancel
    } else if name == "reset".to_owned() {
        Button::Reset
    } else if name == "lock".to_owned() {
        Button::Lock
    } else if name == "abort".to_owned() {
        Button::Abort
    } else if name == "win".to_owned() {
        Button::Win
    } else {
        Button::Other
    }
}

/// What a click asks of the pool, once it is known who clicked.
#[derive(Clone, Copy, PartialEq, Eq, Structural, Debug)]
pub enum Command {
    /// Stake the amount on the option under which the button stands.
    Stake { amount: u64 },
    /// Leave the community as it is.
    CancelReset,
    /// Reset the accounts of the community.
    ResetAll,
    /// Lock the bet.
    Lock,
    /// Abort the bet.
    Abort,
    /// Close the bet on the option under which the button stands.
    Close,
    /// Do nothing.
    Nothing,
}

/// The command behind a click. Anyone may stake one of the presets, but a
/// preset of nothing stakes nothing; a reset is for administrators to
/// confirm or call off; a bet is for its owner to lock, abort or close.
pub open spec fn command_for(button: Button, presets: Seq<u64>, is_admin: bool, is_owner: bool) -> Command {
    match button {
        Button::Stake(i) => if i < presets.len() && presets[i as int] > 0 {
            Command::Stake { amount: presets[i as int] }
        } else {
            Command::Nothing
        },
        Button::Cancel => if is_admin {
            Command::CancelReset
        } else {
            Command::Nothing
        },
        Button::Reset => if is_admin {
            Command::ResetAll
        } else {
            Command::Nothing
        },
        Button::Lock => if is_owner {
            Command::Lock
        } else {
            Command::Nothing
        },
        Button::Abort => if is_owner {
            Command::Abort
        } else {
            Command::Nothing
        },
        Button::Win => if is_owner {
            Command::Close
        } else {
            Command::Nothing
        },
        Button::Other => Command::Nothing,
    }
}

/// Whether acting on the button takes knowing if the one who clicked is an
/// administrator.
pub fn needs_admin(button: Button) -> (needed: bool)
    ensures
        needed == (button == Button::Cancel || button == Button::Reset),
{
    match button {
        Button::Cancel => true,
        Button::Reset => true,
        _ => false,
    }
}

/// Whether acting on the button takes knowing if the one who clicked owns
/// the bet.
pub fn needs_owner(button: Button) -> (needed: bool)
    ensures
        needed == (button == Button::Lock || button == Button::Abort || button == Button::Win),
{
    match button {
        Button::Lock => true,
        Button::Abort => true,
        Button::Win => true,
        _ => false,
    }
}

/// Decides what a click asks of the pool.
pub fn decide(button: Button, presets: &Vec<u64>, is_admin: bool, is_owner: bool) -> (command:
    Command)
    ensures
        command == command_for(button, presets@, is_admin, is_owner),
{
    match button {
        Button::Stake(i) => {
            if i < presets.len() && presets[i] > 0 {
                Command::Stake { amount: presets[i] }
            } else {
                Command::Nothing
            }
        },
        Button::Cancel => if is_admin {
            Command::CancelReset
        } else {
            Command::Nothing
        },
        Button::Reset => if is_admin {
            Command::ResetAll
        } else {
            Command::Nothing
        },
        Button::Lock => if is_owner {
            Command::Lock
        } else {
            Command::Nothing
        },
        Button::Abort => if is_owner {
            Command::Abort
        } else {
            Command::Nothing
        },
        Button::Win => if is_owner {
            Command::Close
        } else {
            Command::Nothing
        },
        Button::Other => Command::Nothing,
    }
}

} // verus!
