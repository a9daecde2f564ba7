use vstd::prelude::*;
use crate::error::VmError;
use crate::strings::{char_for, dec_int, is_unicode_scalar, numbers_from, parse_numbers, push_code_point, render_code_point, i32_to_string};

verus! {

/// An input value, tagged so numbers and characters can be told apart.
#[derive(Debug, Clone, Copy, PartialEq, Eq, Structural)]
pub enum InputValue {
    Number(i32),
    Char(i32),
}

/// An output value, tagged so numbers and characters render differently.
#[derive(Debug, Clone, Copy, PartialEq, Eq, Structural)]
pub enum OutputValue {
    Number(i32),
    Char(i32),
}

/// The plain value carried by an input entry.
pub open spec fn input_value_of(v: InputValue) -> i32 {
    match v {
        InputValue::Number(n) => n,
        InputValue::Char(c) => c,
    }
}

/// The plain value carried by an output entry.
pub open spec fn output_value_of(v: OutputValue) -> i32 {
    match v {
        OutputValue::Number(n) => n,
        OutputValue::Char(c) => c,
    }
}

/// What one output entry renders as: numbers in decimal, characters as the
/// char of their code point (or nothing, for an invalid code point).
pub open spec fn render_value(v: OutputValue) -> Seq<char> {
    match v {
        OutputValue::Number(n) => dec_int(n as int),
        OutputValue::Char(c) => render_code_point(c),
    }
}

/// The string rendering of a whole output buffer, in order.
pub open spec fn render_output(s: Seq<OutputValue>) -> Seq<char>
    decreases s.len(),
{
    if s.len() == 0 {
        Seq::empty()
    } else {
        render_output(s.drop_last()) + render_value(s.last())
    }
}

/// Ordered input buffer, consumed positionally.
#[derive(Debug, Clone)]
pub struct Input {
    buffer: Vec<InputValue>,
    position: usize,
}

impl Input {
    /// The buffered entries, consumed and pending alike.
    pub closed spec fn spec_buffer(self) -> Seq<InputValue> {
        self.buffer@
    }

    /// How many entries have been consumed.
    pub closed spec fn spec_pos(self) -> int {
        self.position as int
    }

    pub open spec fn wf(self) -> bool {
        0 <= self.spec_pos() <= self.spec_buffer().len()
    }

    pub fn new() -> (inp: Input)
        ensures
            inp.spec_buffer() == Seq::<InputValue>::empty(),
            inp.spec_pos() == 0,
            inp.wf(),
    {
        Input { buffer: Vec::new(), position: 0 }
    }

    /// Appends a single number value.
    pub fn write(&mut self, value: i32)
        ensures
            final(self).spec_buffer() == old(self).spec_buffer().push(InputValue::Number(value)),
            final(self).spec_pos() == old(self).spec_pos(),
            old(self).wf() ==> final(self).wf(),
    {
        self.buffer.push(InputValue::Number(value));
    }

    /// Appends a single character value, as its code point.
    pub fn write_char(&mut self, c: char)
        ensures
            final(self).spec_buffer() == old(self).spec_buffer().push(InputValue::Char(c as i32)),
            final(self).spec_pos() == old(self).spec_pos(),
            old(self).wf() ==> final(self).wf(),
    {
        proof {
            vstd::utf8::char_is_scalar(c);
        }
        self.buffer.push(InputValue::Char(c as i32));
    }

    /// Appends every character of the text as a character input.
    pub fn load_text(&mut self, text: &str)
        ensures
            final(self).spec_buffer() == old(self).spec_buffer()
                + text@.map_values(|c: char| InputValue::Char(c as i32)),
            final(self).spec_pos() == old(self).spec_pos(),
            old(self).wf() ==> final(self).wf(),
    {
        let chars = str_chars(text);
        let ghost mapped = text@.map_values(|c: char| InputValue::Char(c as i32));
        let mut i: usize = 0;
        while i < chars.len()
            invariant
                i <= chars.len(),
                chars@ == text@,
                self.buffer@ == old(self).spec_buffer() + mapped.take(i as int),
                self.position == old(self).position,
                mapped == text@.map_values(|c: char| InputValue::Char(c as i32)),
            decreases chars.len() - i,
        {
            let c = chars[i];
            proof {
                vstd::utf8::char_is_scalar(c);
            }
            self.buffer.push(InputValue::Char(c as i32));
            proof {
                assert(self.buffer@ =~= old(self).spec_buffer() + mapped.take(i as int + 1));
            }
            i = i + 1;
        }
        proof {
            assert(mapped.take(chars@.len() as int) =~= mapped);
        }
    }

    /// Parses whitespace-separated numbers out of the text and appends each
    /// one that reads as a 32-bit integer, in order.
    pub fn load_numbers(&mut self, text: &str)
        ensures
            final(self).spec_buffer() == old(self).spec_buffer()
                + numbers_from(text@, 0).map_values(|n: i32| InputValue::Number(n)),
            final(self).spec_pos() == old(self).spec_pos(),
            old(self).wf() ==> final(self).wf(),
    {
        let chars = str_chars(text);
        let nums = parse_numbers(&chars);
        self.load_number_vec(nums.as_slice());
    }

    /// Appends a slice of numbers as number inputs.
    pub fn load_number_vec(&mut self, numbers: &[i32])
        ensures
            final(self).spec_buffer() == old(self).spec_buffer()
                + numbers@.map_values(|n: i32| InputValue::Number(n)),
            final(self).spec_pos() == old(self).spec_pos(),
            old(self).wf() ==> final(self).wf(),
    {
        let ghost mapped = numbers@.map_values(|n: i32| InputValue::Number(n));
        let mut i: usize = 0;
        while i < numbers.len()
            invariant
                i <= numbers.len(),
                self.buffer@ == old(self).spec_buffer() + mapped.take(i as int),
                self.position == old(self).position,
                mapped == numbers@.map_values(|n: i32| InputValue::Number(n)),
            decreases numbers.len() - i,
        {
            let n = numbers[i];
            self.buffer.push(InputValue::Number(n));
            proof {
                assert(self.buffer@ =~= old(self).spec_buffer() + mapped.take(i as int + 1));
            }
            i = i + 1;
        }
        proof {
            assert(mapped.take(numbers@.len() as int) =~= mapped);
        }
    }

    /// Empties the buffer and resets the read position.
    pub fn clear(&mut self)
        ensures
            final(self).spec_buffer() == Seq::<InputValue>::empty(),
            final(self).spec_pos() == 0,
            final(self).wf(),
    {
        self.buffer.clear();
        self.position = 0;
    }

    /// Moves the read position back to the start, so inputs are re-read.
    pub fn rewind(&mut self)
        ensures
            final(self).spec_buffer() == old(self).spec_buffer(),
            final(self).spec_pos() == 0,
            final(self).wf(),
    {
        self.position = 0;
    }

    /// How many entries are still unread.
    pub fn remaining(&self) -> (n: usize)
        requires
            self.wf(),
        ensures
            n == self.spec_buffer().len() - self.spec_pos(),
    {
        self.buffer.len() - self.position
    }

    /// Whether an unread entry is available.
    pub fn has_input(&self) -> (b: bool)
        ensures
            b == (self.spec_pos() < self.spec_buffer().len()),
    {
        self.position < self.buffer.len()
    }

    /// An independent copy with the same buffer and read position.
    pub fn duplicate(&self) -> (r: Input)
        ensures
            r.spec_buffer() == self.spec_buffer(),
            r.spec_pos() == self.spec_pos(),
    {
        let mut buffer: Vec<InputValue> = Vec::new();
        let mut i: usize = 0;
        while i < self.buffer.len()
            invariant
                i <= self.buffer@.len(),
                buffer@ == self.buffer@.take(i as int),
            decreases self.buffer@.len() - i,
        {
            buffer.push(self.buffer[i]);
            proof {
                assert(buffer@ =~= self.buffer@.take(i as int + 1));
            }
            i = i + 1;
        }
        proof {
            assert(self.buffer@.take(self.buffer@.len() as int) =~= self.buffer@);
        }
        Input { buffer, position: self.position }
    }

    /// Consumes the next entry, as its plain value.
    pub fn read(&mut self) -> (r: Option<i32>)
        ensures
            final(self).spec_buffer() == old(self).spec_buffer(),
            if old(self).spec_pos() < old(self).spec_buffer().len() {
                r == Some(input_value_of(old(self).spec_buffer()[old(self).spec_pos()]))
                    && final(self).spec_pos() == old(self).spec_pos() + 1
            } else {
                r == None::<i32> && final(self).spec_pos() == old(self).spec_pos()
            },
            old(self).wf() ==> final(self).wf(),
    {
        if self.position < self.buffer.len() {
            let value = match self.buffer[self.position] {
                InputValue::Number(n) => n,
                InputValue::Char(c) => c,
            };
            self.position = self.position + 1;
            Some(value)
        } else {
            None
        }
    }

    /// Consumes the next entry; fails with InvalidInput when the buffer is
    /// exhausted.
    pub fn read_number(&mut self) -> (r: Result<i32, VmError>)
        ensures
            final(self).spec_buffer() == old(self).spec_buffer(),
            if old(self).spec_pos() < old(self).spec_buffer().len() {
                r == Ok::<i32, VmError>(input_value_of(old(self).spec_buffer()[old(self).spec_pos()]))
                    && final(self).spec_pos() == old(self).spec_pos() + 1
            } else {
                r == Err::<i32, VmError>(VmError::InvalidInput)
                    && final(self).spec_pos() == old(self).spec_pos()
            },
            old(self).wf() ==> final(self).wf(),
    {
        match self.read() {
            Some(v) => Ok(v),
            None => Err(VmError::InvalidInput),
        }
    }

    /// Consumes the next entry; fails with InvalidInput when the buffer is
    /// exhausted.
    pub fn read_char(&mut self) -> (r: Result<i32, VmError>)
        ensures
            final(self).spec_buffer() == old(self).spec_buffer(),
            if old(self).spec_pos() < old(self).spec_buffer().len() {
                r == Ok::<i32, VmError>(input_value_of(old(self).spec_buffer()[old(self).spec_pos()]))
                    && final(self).spec_pos() == old(self).spec_pos() + 1
            } else {
                r == Err::<i32, VmError>(VmError::InvalidInput)
                    && final(self).spec_pos() == old(self).spec_pos()
            },
            old(self).wf() ==> final(self).wf(),
    {
        match self.read() {
            Some(v) => Ok(v),
            None => Err(VmError::InvalidInput),
        }
    }

    /// Consumes the next entry and interprets it as a char; None when the
    /// buffer is exhausted or the value is not a valid code point.
    pub fn read_char_as_char(&mut self) -> (r: Option<char>)
        ensures
            final(self).spec_buffer() == old(self).spec_buffer(),
            ({
                let buf = old(self).spec_buffer();
                let pos = old(self).spec_pos();
                if pos < buf.len() {
                    final(self).spec_pos() == pos + 1
                        && ({
                            let v = input_value_of(buf[pos]);
                            if v >= 0 && is_unicode_scalar(v as u32) {
                                r == Some(char_for(v as u32))
                            } else {
                                r == None::<char>
                            }
                        })
                } else {
                    r == None::<char> && final(self).spec_pos() == pos
                }
            }),
            old(self).wf() ==> final(self).wf(),
    {
        match self.read() {
            Some(v) => {
                if v >= 0 {
                    let r = char::from_u32(v as u32);
                    proof {
                        if r is Some {
                            vstd::utf8::char_u32_cast(r->Some_0, v as u32);
                        }
                    }
                    r
                } else {
                    None
                }
            }
            None => None,
        }
    }
}

impl Default for Input {
    fn default() -> (inp: Self)
        ensures
            inp.spec_buffer() == Seq::<InputValue>::empty(),
            inp.spec_pos() == 0,
    {
        Self::new()
    }
}

/// Relies on str::chars of std: yields the string's chars in order.
#[verifier::external_body]
fn str_chars(s: &str) -> (v: Vec<char>)
    ensures
        v@ == s@,
{
    s.chars().collect()
}

/// Ordered output buffer.
#[derive(Debug, Clone)]
pub struct Output {
    buffer: Vec<OutputValue>,
}

impl Output {
    /// The entries written so far, in order.
    pub closed spec fn spec_buffer(self) -> Seq<OutputValue> {
        self.buffer@
    }

    pub fn new() -> (out: Output)
        ensures
            out.spec_buffer() == Seq::<OutputValue>::empty(),
    {
        Output { buffer: Vec::new() }
    }

    /// Appends a number entry.
    pub fn write(&mut self, value: i32)
        ensures
            final(self).spec_buffer() == old(self).spec_buffer().push(OutputValue::Number(value)),
    {
        self.buffer.push(OutputValue::Number(value));
    }

    /// Appends a number entry.
    pub fn write_number(&mut self, value: i32)
        ensures
            final(self).spec_buffer() == old(self).spec_buffer().push(OutputValue::Number(value)),
    {
        self.buffer.push(OutputValue::Number(value));
    }

    /// Appends a character entry carrying the given code point.
    pub fn write_char(&mut self, value: i32)
        ensures
            final(self).spec_buffer() == old(self).spec_buffer().push(OutputValue::Char(value)),
    {
        self.buffer.push(OutputValue::Char(value));
    }

    /// Appends a character entry from a char.
    pub fn write_char_from_char(&mut self, c: char)
        ensures
            final(self).spec_buffer() == old(self).spec_buffer().push(OutputValue::Char(c as i32)),
    {
        proof {
            vstd::utf8::char_is_scalar(c);
        }
        self.buffer.push(OutputValue::Char(c as i32));
    }

    /// The plain values written, in order.
    pub fn read(&self) -> (r: Vec<i32>)
        ensures
            r@ == self.spec_buffer().map_values(|v: OutputValue| output_value_of(v)),
    {
        let ghost mapped = self.buffer@.map_values(|v: OutputValue| output_value_of(v));
        let mut r: Vec<i32> = Vec::new();
        let mut i: usize = 0;
        while i < self.buffer.len()
            invariant
                i <= self.buffer.len(),
                r@ == mapped.take(i as int),
                mapped == self.buffer@.map_values(|v: OutputValue| output_value_of(v)),
            decreases self.buffer.len() - i,
        {
            let v = match self.buffer[i] {
                OutputValue::Number(n) => n,
                OutputValue::Char(c) => c,
            };
            r.push(v);
            proof {
                assert(r@ =~= mapped.take(i as int + 1));
            }
            i = i + 1;
        }
        proof {
            assert(mapped.take(self.buffer@.len() as int) =~= mapped);
        }
        r
    }

    /// Renders the buffer as a string: numbers in decimal, characters as
    /// their code points.
    pub fn read_string(&self) -> (s: String)
        ensures
            s@ == render_output(self.spec_buffer()),
    {
        let mut s = String::new();
        let mut i: usize = 0;
        while i < self.buffer.len()
            invariant
                i <= self.buffer.len(),
                s@ == render_output(self.buffer@.take(i as int)),
            decreases self.buffer.len() - i,
        {
            match self.buffer[i] {
                OutputValue::Number(n) => {
                    let piece = i32_to_string(n);
                    s.push_str(piece.as_str());
                }
                OutputValue::Char(c) => {
                    push_code_point(&mut s, c);
                }
            }
            proof {
                let taken = self.buffer@.take(i as int + 1);
                assert(taken.drop_last() =~= self.buffer@.take(i as int));
                assert(taken.last() == self.buffer@[i as int]);
            }
            i = i + 1;
        }
        proof {
            assert(self.buffer@.take(self.buffer@.len() as int) =~= self.buffer@);
        }
        s
    }

    /// Empties the buffer.
    pub fn clear(&mut self)
        ensures
            final(self).spec_buffer() == Seq::<OutputValue>::empty(),
    {
        self.buffer.clear();
    }

    /// How many entries have been written.
    pub fn len_entries(&self) -> (n: usize)
        ensures
            n == self.spec_buffer().len(),
    {
        self.buffer.len()
    }

    /// The plain value of the most recent entry, if any.
    pub fn last_value(&self) -> (r: Option<i32>)
        ensures
            r == (if self.spec_buffer().len() > 0 {
                Some(output_value_of(self.spec_buffer().last()))
            } else {
                None
            }),
    {
        if self.buffer.len() > 0 {
            let v = match self.buffer[self.buffer.len() - 1] {
                OutputValue::Number(n) => n,
                OutputValue::Char(c) => c,
            };
            Some(v)
        } else {
            None
        }
    }

    /// An independent copy with the same entries.
    pub fn duplicate(&self) -> (r: Output)
        ensures
            r.spec_buffer() == self.spec_buffer(),
    {
        let mut buffer: Vec<OutputValue> = Vec::new();
        let mut i: usize = 0;
        while i < self.buffer.len()
            invariant
                i <= self.buffer@.len(),
                buffer@ == self.buffer@.take(i as int),
            decreases self.buffer@.len() - i,
        {
            buffer.push(self.buffer[i]);
            proof {
                assert(buffer@ =~= self.buffer@.take(i as int + 1));
            }
            i = i + 1;
        }
        proof {
            assert(self.buffer@.take(self.buffer@.len() as int) =~= self.buffer@);
        }
        Output { buffer }
    }
}

impl Default for Output {
    fn default() -> (out: Self)
        ensures
            out.spec_buffer() == Seq::<OutputValue>::empty(),
    {
        Self::new()
    }
}

} // verus!
