use vstd::prelude::*;
use crate::text::{
    all_digits, digit_val, digits_val, is_digit, lemma_digit_char_roundtrip, lemma_digits_bound,
    lemma_pow10_monotone, pow10, push_digit,
};

verus! {

/// An editable one-line field that accepts only digits, with a cursor;
/// it feeds the point-total prompt.  At most nine digits fit, so the
/// value always fits the result type.
#[derive(Debug, Clone)]
pub struct NumberInputField {
    pub input: Vec<char>,
    pub character_index: usize,
}

impl NumberInputField {
    /// Well-formed fields hold only digits, at most nine, and keep the
    /// cursor inside the text.
    pub open spec fn wf(&self) -> bool {
        &&& all_digits(self.input@)
        &&& self.input@.len() <= 9
        &&& self.character_index <= self.input@.len()
    }

    pub fn new() -> (r: NumberInputField)
        ensures
            r.wf(),
            r.input@.len() == 0,
            r.character_index == 0,
    {
        NumberInputField { input: Vec::new(), character_index: 0 }
    }

    /// The entered text.
    pub fn get_input(&self) -> (r: String)
        requires
            self.wf(),
        ensures
            r@ == self.input@,
    {
        let mut s = String::new();
        let mut i: usize = 0;
        while i < self.input.len()
            invariant
                self.wf(),
                i <= self.input@.len(),
                s@ =~= self.input@.take(i as int),
            decreases self.input@.len() - i,
        {
            let c = self.input[i];
            assert(is_digit(c));
            let d = c as u32 - '0' as u32;
            push_digit(&mut s, d);
            proof {
                lemma_digit_char_roundtrip(c);
                assert(s@ =~= self.input@.take(i + 1));
            }
            i += 1;
        }
        proof {
            assert(self.input@.take(self.input@.len() as int) =~= self.input@);
        }
        s
    }

    pub fn get_index(&self) -> (r: usize)
        ensures
            r == self.character_index,
    {
        self.character_index
    }

    pub fn move_cursor_left(&mut self)
        requires
            old(self).wf(),
        ensures
            final(self).wf(),
            final(self).input == old(self).input,
            final(self).character_index == if old(self).character_index > 0 {
                old(self).character_index - 1
            } else {
                0int
            },
    {
        if self.character_index > 0 {
            self.character_index = self.character_index - 1;
        }
    }

    pub fn move_cursor_right(&mut self)
        requires
            old(self).wf(),
        ensures
            final(self).wf(),
            final(self).input == old(self).input,
            final(self).character_index == if old(self).character_index < old(self).input@.len() {
                old(self).character_index + 1
            } else {
                old(self).input@.len() as int
            },
    {
        if self.character_index < self.input.len() {
            self.character_index = self.character_index + 1;
        }
    }

    /// Inserts a digit at the cursor and moves the cursor past it; any
    /// other character, or a ninth digit when nine are held, is
    /// ignored rather than breaking the field.
    pub fn enter_char(&mut self, new_char: char)
        requires
            old(self).wf(),
        ensures
            final(self).wf(),
            if is_digit(new_char) && old(self).input@.len() < 9 {
                final(self).input@ == old(self).input@.insert(
                    old(self).character_index as int,
                    new_char,
                ) && final(self).character_index == old(self).character_index + 1
            } else {
                *final(self) == *old(self)
            },
    {
        if ('0' <= new_char && new_char <= '9') && self.input.len() < 9 {
            self.input.insert(self.character_index, new_char);
            self.character_index = self.character_index + 1;
        }
    }

    /// Removes the digit before the cursor, if the cursor is not at
    /// the left edge, and moves the cursor back over it.
    pub fn delete_char(&mut self)
        requires
            old(self).wf(),
        ensures
            final(self).wf(),
            if old(self).character_index > 0 {
                final(self).input@ == old(self).input@.remove(old(self).character_index - 1)
                    && final(self).character_index == old(self).character_index - 1
            } else {
                *final(self) == *old(self)
            },
    {
        if self.character_index > 0 {
            self.input.remove(self.character_index - 1);
            self.character_index = self.character_index - 1;
        }
    }

    /// Whether any digits are held; `get_number` needs at least one.
    pub fn has_input(&self) -> (r: bool)
        ensures
            r == (self.input@.len() > 0),
    {
        self.input.len() > 0
    }

    /// The entered number; the field is cleared and the cursor reset.
    pub fn get_number(&mut self) -> (r: u32)
        requires
            old(self).wf(),
            old(self).input@.len() >= 1,
        ensures
            final(self).wf(),
            r == digits_val(old(self).input@),
            final(self).input@.len() == 0,
            final(self).character_index == 0,
    {
        let ghost full = self.input@;
        let mut acc: u32 = 0;
        let mut i: usize = 0;
        while i < self.input.len()
            invariant
                self.wf(),
                self.input@ == full,
                i <= full.len(),
                acc == digits_val(full.take(i as int)),
            decreases full.len() - i,
        {
            let c = self.input[i];
            assert(is_digit(c));
            let d = c as u32 - '0' as u32;
            proof {
                assert(all_digits(full.take(i as int)));
                lemma_digits_bound(full.take(i as int));
                lemma_pow10_monotone(i as nat, 8);
                reveal_with_fuel(pow10, 10);
                assert(acc < 100_000_000);
                assert(full.take(i + 1).drop_last() =~= full.take(i as int));
                assert(full.take(i + 1).last() == full[i as int]);
            }
            acc = acc * 10 + d;
            i += 1;
        }
        proof {
            assert(full.take(full.len() as int) =~= full);
        }
        self.input.clear();
        self.character_index = 0;
        acc
    }
}

} // verus!
