use vstd::prelude::*;
use crate::decimal::{
    decimal, parse_unsigned, parse_unsigned_bounded, parse_u64_bounded, usize_to_decimal, u64_to_decimal,
    lemma_decimal_round_trip,
};

verus! {

/// A value that a text entry can show and read back.
pub trait EntryValue: Sized {
    /// The text that `to_text` writes.
    spec fn spec_text(&self) -> Seq<char>;

    /// The value that `parse_text` reads from a text, if it reads one.
    spec fn spec_parse(s: Seq<char>) -> Option<Self>;

    /// Writes the value as text.
    fn to_text(&self) -> (r: String)
        ensures
            r@ == self.spec_text(),
    ;

    /// Reads a value from text.
    fn parse_text(s: &str) -> (r: Option<Self>)
        ensures
            r == Self::spec_parse(s@),
    ;
}

impl EntryValue for usize {
    open spec fn spec_text(&self) -> Seq<char> {
        decimal(*self as nat)
    }

    open spec fn spec_parse(s: Seq<char>) -> Option<usize> {
        match parse_unsigned(s, usize::MAX as nat) {
            Some(v) => Some(v as usize),
            None => None,
        }
    }

    fn to_text(&self) -> (r: String) {
        usize_to_decimal(*self)
    }

    fn parse_text(s: &str) -> (r: Option<usize>) {
        parse_unsigned_bounded(s, usize::MAX)
    }
}

impl EntryValue for u32 {
    open spec fn spec_text(&self) -> Seq<char> {
        decimal(*self as nat)
    }

    open spec fn spec_parse(s: Seq<char>) -> Option<u32> {
        match parse_unsigned(s, u32::MAX as nat) {
            Some(v) => Some(v as u32),
            None => None,
        }
    }

    fn to_text(&self) -> (r: String) {
        usize_to_decimal(*self as usize)
    }

    fn parse_text(s: &str) -> (r: Option<u32>) {
        match parse_unsigned_bounded(s, u32::MAX as usize) {
            Some(v) => Some(v as u32),
            None => None,
        }
    }
}

impl EntryValue for u64 {
    open spec fn spec_text(&self) -> Seq<char> {
        decimal(*self as nat)
    }

    open spec fn spec_parse(s: Seq<char>) -> Option<u64> {
        match parse_unsigned(s, u64::MAX as nat) {
            Some(v) => Some(v as u64),
            None => None,
        }
    }

    fn to_text(&self) -> (r: String) {
        u64_to_decimal(*self)
    }

    fn parse_text(s: &str) -> (r: Option<u64>) {
        parse_u64_bounded(s, u64::MAX)
    }
}

/// The entry after it is set to show `s`.
pub open spec fn with_string<T: EntryValue>(e: EntryState<T>, s: String) -> EntryState<T> {
    match T::spec_parse(s@) {
        Some(v) => EntryState { parsed_value: v, string_value: s, is_valid: true },
        None => EntryState { parsed_value: e.parsed_value, string_value: s, is_valid: false },
    }
}

/// A text entry paired with the last value it read successfully.
#[derive(Clone, Debug)]
pub struct EntryState<T: EntryValue> {
    pub parsed_value: T,
    pub string_value: String,
    pub is_valid: bool,
}

impl<T: EntryValue> EntryState<T> {
    /// An entry that shows `v` and holds it.
    pub fn new(v: T) -> (r: Self)
        ensures
            r.parsed_value == v,
            r.string_value@ == v.spec_text(),
            r.is_valid,
    {
        EntryState { string_value: v.to_text(), parsed_value: v, is_valid: true }
    }

    /// Shows `s`; holds the value it reads, or keeps the old value and marks
    /// the entry invalid where `s` reads as no value.
    pub fn set_string(&mut self, s: String)
        ensures
            *final(self) == with_string(*old(self), s),
            final(self).string_value == s,
            match T::spec_parse(s@) {
                Some(v) => final(self).parsed_value == v && final(self).is_valid,
                None => final(self).parsed_value == old(self).parsed_value && !final(self).is_valid,
            },
    {
        if let Some(v) = T::parse_text(s.as_str()) {
            self.parsed_value = v;
            self.is_valid = true;
        } else {
            self.is_valid = false;
        }
        self.string_value = s;
    }

    /// Shows and holds `v`.
    pub fn set_value(&mut self, v: T)
        ensures
            final(self).string_value@ == v.spec_text(),
            final(self).parsed_value == v,
            final(self).is_valid,
    {
        self.string_value = v.to_text();
        self.parsed_value = v;
        self.is_valid = true;
    }
}

/// For the integer entries, the text an entry shows for a value reads back
/// as that value: typing back what `set_value` showed restores it.
pub proof fn lemma_entry_text_round_trip(v: usize, w: u32, x: u64)
    ensures
        <usize as EntryValue>::spec_parse(v.spec_text()) == Some(v),
        <u32 as EntryValue>::spec_parse(w.spec_text()) == Some(w),
        <u64 as EntryValue>::spec_parse(x.spec_text()) == Some(x),
{
    lemma_decimal_round_trip(v as nat, usize::MAX as nat);
    lemma_decimal_round_trip(w as nat, u32::MAX as nat);
    lemma_decimal_round_trip(x as nat, u64::MAX as nat);
}

} // verus!
