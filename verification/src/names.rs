//! A package's name map: the table every `FName` in a header is an index
//! into, with a number suffix kept beside the index rather than in the text.

use vstd::prelude::*;

use crate::order::chars_eq;
use crate::text::{
    canonical_decimal, chars_of, decimal, digits_value, is_ascii_digit, lemma_decimal_digits,
    lemma_decimal_of_digits, parse_canonical_decimal, push_decimal, rfind, rfind_char, string_of,
    sub_chars, trim, trim_chars,
};

verus! {

/// A reference into the name map: the entry, and a number that is `0` for
/// none and `n` for a `_{n - 1}` suffix.
#[derive(Clone, Copy, Debug, PartialEq, Eq, Structural)]
pub struct FMappedName {
    pub index: u32,
    pub number: u32,
}

impl FMappedName {
    pub fn index(&self) -> (out: u32)
        ensures
            out == self.index,
    {
        self.index
    }
}

/// The text a base name and number spell: `base`, or `base_{number - 1}`.
pub open spec fn name_text(base: Seq<char>, number: u32) -> Seq<char> {
    if number == 0 {
        base
    } else {
        base + seq!['_'] + decimal((number - 1) as nat)
    }
}

/// How `text` is stored: a trailing `_N` in canonical decimal, small enough
/// for the number field, moves into the number as `N + 1`; anything else is
/// the base name whole.
pub open spec fn parse_name(text: Seq<char>) -> (Seq<char>, u32) {
    match rfind(text, '_') {
        Some(i) => {
            let digits = text.skip(i + 1);
            if canonical_decimal(digits) && digits_value(digits) < u32::MAX {
                (text.take(i), (digits_value(digits) + 1) as u32)
            } else {
                (text, 0)
            }
        },
        None => (text, 0),
    }
}

/// What renaming an entry past the end of the table is answered.
pub open spec fn no_entry_message(index: nat) -> Seq<char> {
    "name map has no entry "@ + decimal(index)
}

/// The table of names a header's references index.
#[derive(Clone, Debug, PartialEq, Eq)]
pub struct FNameMap {
    pub names: Vec<String>,
}

pub open spec fn resolve(names: Seq<String>, mapped: FMappedName) -> Option<Seq<char>> {
    if mapped.index < names.len() {
        Some(name_text(names[mapped.index as int]@, mapped.number))
    } else {
        None
    }
}

/// The first entry spelling `base`, if any.
pub open spec fn find_name(names: Seq<String>, base: Seq<char>) -> Option<int>
    decreases names.len(),
{
    if names.len() == 0 {
        None
    } else if names[0]@ == base {
        Some(0)
    } else {
        match find_name(names.drop_first(), base) {
            Some(k) => Some(k + 1),
            None => None,
        }
    }
}

proof fn lemma_find_name(names: Seq<String>, base: Seq<char>, i: int)
    requires
        0 <= i <= names.len(),
        forall|j: int| 0 <= j < i ==> #[trigger] names[j]@ != base,
    ensures
        i < names.len() && names[i]@ == base ==> find_name(names, base) == Some(i),
        i == names.len() ==> find_name(names, base) is None,
    decreases i,
{
    if i > 0 {
        let t = names.drop_first();
        assert forall|j: int| 0 <= j < i - 1 implies #[trigger] t[j]@ != base by {
            assert(t[j] == names[j + 1]);
        }
        assert(names[0]@ != base);
        lemma_find_name(t, base, i - 1);
        if i < names.len() {
            assert(t[i - 1] == names[i]);
        }
    }
}

/// Where `store(text)` puts a name: the entry that already spells its base,
/// or a new one at the end.
pub open spec fn stored_index(names: Seq<String>, text: Seq<char>) -> int {
    match find_name(names, parse_name(text).0) {
        Some(k) => k,
        None => names.len() as int,
    }
}

impl FNameMap {
    pub fn len(&self) -> (out: usize)
        ensures
            out == self.names@.len(),
    {
        self.names.len()
    }

    /// The text `mapped` resolves to, or nothing when it points past the end
    /// of the table.
    pub fn try_get(&self, mapped: FMappedName) -> (out: Option<String>)
        ensures
            match resolve(self.names@, mapped) {
                Some(text) => out matches Some(s) && s@ == text,
                None => out is None,
            },
    {
        if (mapped.index as usize) >= self.names.len() {
            return None;
        }
        let mut text = chars_of(self.names[mapped.index as usize].as_str());
        if mapped.number != 0 {
            text.push('_');
            push_decimal(&mut text, (mapped.number - 1) as u64);
            assert(text@ =~= name_text(self.names@[mapped.index as int]@, mapped.number));
        }
        Some(string_of(&text))
    }

    /// Rewrite entry `index`, retargeting every reference to it at once.
    pub fn rename(&mut self, index: usize, text: &str) -> (out: Result<(), String>)
        ensures
            index < old(self).names@.len() ==> out is Ok && final(self).names@.len()
                == old(self).names@.len() && final(self).names@[index as int]@ == text@ && forall|
                j: int,
            |
                0 <= j < old(self).names@.len() && j != index ==> #[trigger] final(self).names@[j]
                    == old(self).names@[j],
            index >= old(self).names@.len() ==> (out matches Err(e) && e@ == no_entry_message(
                index as nat,
            )) && final(self).names@ == old(self).names@,
    {
        if index >= self.names.len() {
            let mut message = chars_of("name map has no entry ");
            push_decimal(&mut message, index as u64);
            return Err(string_of(&message));
        }
        self.names.set(index, string_of(&chars_of(text)));
        Ok(())
    }

    /// Intern `text`: its base reuses the entry that already spells it, or is
    /// appended, and a trailing `_N` lands in the number.
    pub fn store(&mut self, text: &str) -> (out: FMappedName)
        requires
            old(self).names@.len() < u32::MAX,
        ensures
            out.index == stored_index(old(self).names@, text@),
            out.number == parse_name(text@).1,
            find_name(old(self).names@, parse_name(text@).0) is Some ==> final(self).names@ == old(
                self,
            ).names@,
            find_name(old(self).names@, parse_name(text@).0) is None ==> final(self).names@.len()
                == old(self).names@.len() + 1 && final(self).names@.take(
                old(self).names@.len() as int,
            ) == old(self).names@ && final(self).names@.last()@ == parse_name(text@).0,
    {
        let (base, number) = split_name(text);
        let mut k: usize = 0;
        while k < self.names.len()
            invariant
                k <= self.names.len(),
                self.names@ == old(self).names@,
                self.names@.len() < u32::MAX,
                base@ == parse_name(text@).0,
                number == parse_name(text@).1,
                forall|j: int| 0 <= j < k ==> #[trigger] self.names@[j]@ != base@,
            decreases self.names.len() - k,
        {
            if chars_eq(&chars_of(self.names[k].as_str()), &base) {
                proof {
                    lemma_find_name(self.names@, base@, k as int);
                }
                return FMappedName { index: k as u32, number };
            }
            k += 1;
        }
        proof {
            lemma_find_name(self.names@, base@, k as int);
        }
        let ghost before = self.names@;
        self.names.push(string_of(&base));
        assert(self.names@.take(before.len() as int) =~= before);
        FMappedName { index: k as u32, number }
    }
}

/// `text` split into the base name it is stored under and its number.
fn split_name(text: &str) -> (out: (Vec<char>, u32))
    ensures
        (out.0@, out.1) == parse_name(text@),
{
    let chars = chars_of(text);
    match rfind_char(&chars, '_') {
        Some(i) => {
            let digits = sub_chars(&chars, i + 1, chars.len());
            assert(digits@ =~= chars@.skip(i + 1));
            match parse_canonical_decimal(&digits) {
                Some(value) => {
                    if value < 0xFFFF_FFFF {
                        let base = sub_chars(&chars, 0, i);
                        assert(base@ =~= chars@.take(i as int));
                        (base, (value + 1) as u32)
                    } else {
                        (chars, 0)
                    }
                },
                None => (chars, 0),
            }
        },
        None => (chars, 0),
    }
}

/// Storing a name and resolving the reference gives the same text back: a
/// trailing `_N` is moved into the number without being lost or altered.
pub proof fn lemma_name_round_trip(text: Seq<char>)
    ensures
        name_text(parse_name(text).0, parse_name(text).1) == text,
{
    match rfind(text, '_') {
        Some(i) => {
            let digits = text.skip(i + 1);
            if canonical_decimal(digits) && digits_value(digits) < u32::MAX {
                crate::text::lemma_last_pos(text, crate::text::char_pred('_'));
                lemma_decimal_of_digits(digits);
                assert(text[i] == '_');
                assert(text.take(i) + seq!['_'] + digits =~= text);
            }
        },
        None => {},
    }
}

/// Interning a name in a table and resolving the reference it returns gives
/// back the text that was stored.
pub proof fn lemma_store_then_resolve(names: Seq<String>, after: Seq<String>, text: Seq<char>, mapped: FMappedName)
    requires
        mapped.index == stored_index(names, text),
        mapped.number == parse_name(text).1,
        find_name(names, parse_name(text).0) is Some ==> after == names,
        find_name(names, parse_name(text).0) is None ==> after.len() == names.len() + 1
            && after.take(names.len() as int) == names && after.last()@ == parse_name(text).0,
    ensures
        resolve(after, mapped) == Some(text),
{
    lemma_name_round_trip(text);
    lemma_find_name_found(names, parse_name(text).0);
}

proof fn lemma_find_name_found(names: Seq<String>, base: Seq<char>)
    ensures
        find_name(names, base) matches Some(k) ==> 0 <= k < names.len() && names[k]@ == base,
    decreases names.len(),
{
    if names.len() > 0 && names[0]@ != base {
        lemma_find_name_found(names.drop_first(), base);
    }
}

} // verus!
