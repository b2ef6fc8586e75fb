//! The catalog of password-legal characters, grouped into four classes,
//! and the `Key` selecting which classes a derived password must draw on.

use vstd::prelude::*;

verus! {

/// Selects the character classes that a generated password must contain.
/// A class marked `true` is required; a class marked `false` must not occur.
#[derive(Clone, Copy, PartialEq, Eq, Structural)]
pub struct Key {
    pub upper: bool,
    pub lower: bool,
    pub num: bool,
    pub sym: bool,
}

/// True when the selection enables at least one character class; an all-false
/// selection is rejected by callers before it reaches the derivation engine.
pub open spec fn key_enables_some_class(k: Key) -> bool {
    k.lower || k.upper || k.num || k.sym
}

impl Key {
    /// The default selection: every character class enabled.
    pub fn default() -> (k: Key)
        ensures
            k == (Key { upper: true, lower: true, num: true, sym: true }),
    {
        Key { upper: true, lower: true, num: true, sym: true }
    }

    /// Builds a `Key` from four flags ordered upper, lower, numbers, symbols.
    pub fn from_arr(bools: [bool; 4]) -> (k: Key)
        ensures
            k == (Key { upper: bools[0], lower: bools[1], num: bools[2], sym: bools[3] }),
    {
        Key { upper: bools[0], lower: bools[1], num: bools[2], sym: bools[3] }
    }

    /// Renders the selection as the names of its enabled classes.
    pub fn to_str(&self) -> (s: String)
        ensures
            s@ == key_description(*self),
    {
        let mut s = String::new();
        if self.lower {
            s.append("lowercase ");
        }
        if self.upper {
            s.append("uppercase ");
        }
        if self.num {
            s.append("numbers ");
        }
        if self.sym {
            s.append("symbols");
        }
        s
    }
}

/// The text that `Key::to_str` produces for a selection.
pub open spec fn key_description(k: Key) -> Seq<char> {
    (if k.lower { "lowercase "@ } else { Seq::<char>::empty() })
    + (if k.upper { "uppercase "@ } else { Seq::<char>::empty() })
    + (if k.num { "numbers "@ } else { Seq::<char>::empty() })
    + (if k.sym { "symbols"@ } else { Seq::<char>::empty() })
}

/// True of the 26 lowercase letters.
pub open spec fn is_lower_char(c: char) -> bool {
    97 <= c as u32 <= 122
}

/// True of the 26 uppercase letters.
pub open spec fn is_upper_char(c: char) -> bool {
    65 <= c as u32 <= 90
}

/// True of the 10 decimal digits.
pub open spec fn is_digit_char(c: char) -> bool {
    48 <= c as u32 <= 57
}

/// True of the 33 symbol characters: the printable ASCII characters, space
/// included, that are neither letters nor digits.  This is the one canonical
/// symbol definition; the catalog and the class check below both use it.
pub open spec fn is_symbol_char(c: char) -> bool {
    32 <= c as u32 <= 126 && !is_lower_char(c) && !is_upper_char(c) && !is_digit_char(c)
}

/// The lowercase class, in catalog order.
pub open spec fn lower_chars() -> Seq<char> {
    seq!['a', 'b', 'c', 'd', 'e', 'f', 'g', 'h', 'i', 'j', 'k', 'l', 'm', 'n', 'o', 'p', 'q',
        'r', 's', 't', 'u', 'v', 'w', 'x', 'y', 'z']
}

/// The uppercase class, in catalog order.
pub open spec fn upper_chars() -> Seq<char> {
    seq!['A', 'B', 'C', 'D', 'E', 'F', 'G', 'H', 'I', 'J', 'K', 'L', 'M', 'N', 'O', 'P', 'Q',
        'R', 'S', 'T', 'U', 'V', 'W', 'X', 'Y', 'Z']
}

/// The digit class, in catalog order.
pub open spec fn num_chars() -> Seq<char> {
    seq!['0', '1', '2', '3', '4', '5', '6', '7', '8', '9']
}

/// The symbol class, in catalog order.
pub open spec fn symbol_chars() -> Seq<char> {
    seq!['"', ' ', '!', '#', '$', '%', '&', '\'', '(', ')', '*', '+', ',', '-', '.', '/', ':',
        ';', '<', '=', '>', '?', '@', '[', '\\', ']', '^', '_', '`', '{', '|', '}', '~']
}

/// The legal alphabet for a selection: the enabled classes concatenated in
/// the fixed order lower, upper, digits, symbols.  The order is part of the
/// reproducibility contract: the engine indexes into this sequence.
pub open spec fn alphabet(k: Key) -> Seq<char> {
    (if k.lower { lower_chars() } else { Seq::<char>::empty() })
    + (if k.upper { upper_chars() } else { Seq::<char>::empty() })
    + (if k.num { num_chars() } else { Seq::<char>::empty() })
    + (if k.sym { symbol_chars() } else { Seq::<char>::empty() })
}

/// Every character of the catalog is printable ASCII, and the alphabet of a
/// selection that enables at least one class holds between 10 and 95
/// characters.
pub proof fn lemma_alphabet_ascii(k: Key)
    ensures
        forall|i: int|
            0 <= i < alphabet(k).len() ==> 32 <= #[trigger] (alphabet(k)[i] as u32) <= 126,
        key_enables_some_class(k) ==> alphabet(k).len() >= 10,
        alphabet(k).len() <= 95,
{
    assert forall|i: int|
        0 <= i < alphabet(k).len() implies 32 <= #[trigger] (alphabet(k)[i] as u32) <= 126 by {
        let a = alphabet(k);
        assert(forall|j: int|
            0 <= j < lower_chars().len() ==> 32 <= #[trigger] (lower_chars()[j] as u32) <= 126);
        assert(forall|j: int|
            0 <= j < upper_chars().len() ==> 32 <= #[trigger] (upper_chars()[j] as u32) <= 126);
        assert(forall|j: int|
            0 <= j < num_chars().len() ==> 32 <= #[trigger] (num_chars()[j] as u32) <= 126);
        assert(forall|j: int|
            0 <= j < symbol_chars().len() ==> 32 <= #[trigger] (symbol_chars()[j] as u32) <= 126);
    }
}

/// Each class holds only characters of its own predicate, so the alphabet
/// of a selection holds no character of a disabled class and every
/// character of it satisfies some enabled class's predicate.
pub proof fn lemma_alphabet_classes(k: Key)
    ensures
        forall|i: int|
            0 <= i < alphabet(k).len() ==> {
                let c = #[trigger] alphabet(k)[i];
                ||| (k.lower && is_lower_char(c))
                ||| (k.upper && is_upper_char(c))
                ||| (k.num && is_digit_char(c))
                ||| (k.sym && is_symbol_char(c))
            },
{
    assert forall|i: int|
        0 <= i < alphabet(k).len() implies {
        let c = #[trigger] alphabet(k)[i];
        ||| (k.lower && is_lower_char(c))
        ||| (k.upper && is_upper_char(c))
        ||| (k.num && is_digit_char(c))
        ||| (k.sym && is_symbol_char(c))
    } by {
        assert(forall|j: int|
            0 <= j < lower_chars().len() ==> is_lower_char(#[trigger] lower_chars()[j]));
        assert(forall|j: int|
            0 <= j < upper_chars().len() ==> is_upper_char(#[trigger] upper_chars()[j]));
        assert(forall|j: int|
            0 <= j < num_chars().len() ==> is_digit_char(#[trigger] num_chars()[j]));
        assert(forall|j: int|
            0 <= j < symbol_chars().len() ==> is_symbol_char(#[trigger] symbol_chars()[j]));
    }
}

/// Builds the vector of characters a password derived for `key` may use:
/// the enabled classes in fixed class order.  Empty only if every flag of
/// `key` is false.
pub fn get_pass_building_chars(key: &Key) -> (chars: Vec<char>)
    ensures
        chars@ == alphabet(*key),
{
    let mut chars: Vec<char> = Vec::new();
    if key.lower {
        let class: [char; 26] = ['a', 'b', 'c', 'd', 'e', 'f', 'g', 'h', 'i', 'j', 'k', 'l',
            'm', 'n', 'o', 'p', 'q', 'r', 's', 't', 'u', 'v', 'w', 'x', 'y', 'z'];
        proof {
            assert(class@ =~= lower_chars());
        }
        chars.extend_from_slice(class.as_slice());
    }
    if key.upper {
        let class: [char; 26] = ['A', 'B', 'C', 'D', 'E', 'F', 'G', 'H', 'I', 'J', 'K', 'L',
            'M', 'N', 'O', 'P', 'Q', 'R', 'S', 'T', 'U', 'V', 'W', 'X', 'Y', 'Z'];
        proof {
            assert(class@ =~= upper_chars());
        }
        chars.extend_from_slice(class.as_slice());
    }
    if key.num {
        let class: [char; 10] = ['0', '1', '2', '3', '4', '5', '6', '7', '8', '9'];
        proof {
            assert(class@ =~= num_chars());
        }
        chars.extend_from_slice(class.as_slice());
    }
    if key.sym {
        let class: [char; 33] = ['"', ' ', '!', '#', '$', '%', '&', '\'', '(', ')', '*', '+',
            ',', '-', '.', '/', ':', ';', '<', '=', '>', '?', '@', '[', '\\', ']', '^', '_',
            '`', '{', '|', '}', '~'];
        proof {
            assert(class@ =~= symbol_chars());
        }
        chars.extend_from_slice(class.as_slice());
    }
    proof {
        assert(chars@ =~= alphabet(*key));
    }
    chars
}

} // verus!
