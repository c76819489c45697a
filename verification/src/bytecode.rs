use crate::dmo::{filled, sprite_table, Context, Dmo, Operator, BUFFER_SIZE};
use crate::le::{lemma_u32_of_le_bytes_of, u32_byte, u32_le_bytes, u32_of_le_bytes};
use crate::text::{chars_of, text_of};
use vstd::prelude::*;
use vstd::slice::slice_subrange;
use vstd::utf8::{decode_utf8, is_scalar, valid_utf8};

verus! {

pub trait Bytecode: Sized {
    fn to_bytecode(&self) -> Vec<u8>;

    fn from_bytecode(data: Vec<u8>) -> Result<Self, DecodeError>;
}

/// Why a blob could not be read as a program.
#[derive(Clone, Copy, Debug, PartialEq, Eq, Structural)]
pub enum DecodeError {
    /// The blob ends before the program does.
    Truncated,
    /// A character of a sprite is no Unicode scalar value.
    InvalidScalar,
}

/// The byte that stands for an operator in a blob.
pub open spec fn opcode(op: Operator) -> u8 {
    match op {
        Operator::NOOP => 0x00,
        Operator::Exit(_) => 0x01,
        Operator::Draw(_, _, _) => 0x02,
        Operator::Clear(_) => 0x03,
        Operator::Print => 0xFF,
    }
}

/// The operator that a byte stands for, with its operands zero. A byte that
/// stands for no operator is read as `NOOP`.
pub open spec fn operator_of(code: u8) -> Operator {
    if code == 0x01 {
        Operator::Exit(0)
    } else if code == 0x02 {
        Operator::Draw(0, 0, 0)
    } else if code == 0x03 {
        Operator::Clear(0)
    } else if code == 0xFF {
        Operator::Print
    } else {
        Operator::NOOP
    }
}

/// The operands of an operator as they stand in a blob, behind its opcode.
pub open spec fn operands(op: Operator) -> Seq<u8> {
    match op {
        Operator::NOOP => Seq::empty(),
        Operator::Exit(limit) => u32_le_bytes(limit),
        Operator::Draw(sprite_idx, offset, speed) => seq![sprite_idx, offset] + u32_le_bytes(speed),
        Operator::Clear(charcode) => u32_le_bytes(charcode),
        Operator::Print => Seq::empty(),
    }
}

/// An operator as it stands in a blob.
pub open spec fn encode_op(op: Operator) -> Seq<u8> {
    seq![opcode(op)] + operands(op)
}

/// A character as it stands in a blob.
pub open spec fn encode_char(ch: char) -> Seq<u8> {
    u32_le_bytes(ch as u32)
}

/// Characters as they stand in a blob, one behind the other.
pub open spec fn encode_chars(chars: Seq<char>) -> Seq<u8> {
    chars.flat_map(|ch: char| encode_char(ch))
}

/// A sprite as it stands in a blob: the number of its characters in one
/// byte, then the characters.
pub open spec fn encode_sprite(sprite: Seq<char>) -> Seq<u8> {
    seq![(sprite.len() % 256) as u8] + encode_chars(sprite)
}

/// Sprites as they stand in a blob, one behind the other.
pub open spec fn encode_sprites(sprites: Seq<Seq<char>>) -> Seq<u8> {
    sprites.flat_map(|sprite: Seq<char>| encode_sprite(sprite))
}

/// Operators as they stand in a blob, one behind the other.
pub open spec fn encode_ops(operators: Seq<Operator>) -> Seq<u8> {
    operators.flat_map(|op: Operator| encode_op(op))
}

/// The blob of a sprite table and a program: the number of sprites in one
/// byte, the sprites, the number of operators in one byte, the operators.
pub open spec fn encode(sprites: Seq<Seq<char>>, operators: Seq<Operator>) -> Seq<u8> {
    seq![(sprites.len() % 256) as u8] + encode_sprites(sprites) + seq![
        (operators.len() % 256) as u8,
    ] + encode_ops(operators)
}

pub fn op_to_code(op: Operator) -> (code: u8)
    ensures
        code == opcode(op),
        op == Operator::NOOP ==> code == 0x00,
        op is Exit ==> code == 0x01,
        op is Draw ==> code == 0x02,
        op is Clear ==> code == 0x03,
        op == Operator::Print ==> code == 0xFF,
{
    match op {
        Operator::NOOP => 0x00,
        Operator::Exit(_) => 0x01,
        Operator::Draw(_, _, _) => 0x02,
        Operator::Clear(_) => 0x03,
        Operator::Print => 0xFF,
    }
}

pub fn code_to_op(code: u8) -> (op: Operator)
    ensures
        op == operator_of(code),
        op != Operator::NOOP ==> opcode(op) == code,
{
    match code {
        0x00 => Operator::NOOP,
        0x01 => Operator::Exit(0),
        0x02 => Operator::Draw(0, 0, 0),
        0x03 => Operator::Clear(0),
        0xFF => Operator::Print,
        _ => Operator::NOOP,
    }
}

/// Appends the four bytes of `n`, least significant first.
pub fn push_u32(v: &mut Vec<u8>, n: u32)
    ensures
        final(v)@ == old(v)@ + u32_le_bytes(n),
{
    v.push(u32_byte(n, 0));
    v.push(u32_byte(n, 1));
    v.push(u32_byte(n, 2));
    v.push(u32_byte(n, 3));
    assert(v@ =~= old(v)@ + u32_le_bytes(n));
}

/// Appends the four bytes of a 32-bit float, given as its bit pattern, least
/// significant first.
pub fn push_f32(v: &mut Vec<u8>, n: u32)
    ensures
        final(v)@ == old(v)@ + u32_le_bytes(n),
{
    push_u32(v, n);
}

/// Appends a sprite as it stands in a blob.
fn push_sprite(v: &mut Vec<u8>, sprite: &str)
    ensures
        final(v)@ == old(v)@ + encode_sprite(sprite@),
{
    let chars: Vec<char> = chars_of(sprite);
    let ghost each = |ch: char| encode_char(ch);
    // length in chars, not in bytes
    v.push((chars.len() % 256) as u8);
    let mut i: usize = 0;
    assert(chars@.take(0).map_values(each) =~= Seq::empty());
    while i < chars.len()
        invariant
            i <= chars.len(),
            chars@ == sprite@,
            each == |ch: char| encode_char(ch),
            v@ == old(v)@ + seq![(chars@.len() % 256) as u8] + chars@.take(i as int).flat_map(each),
        decreases chars.len() - i,
    {
        proof {
            chars@.lemma_flat_map_take_append(each, i as int);
        }
        push_u32(v, chars[i] as u32);
        i += 1;
    }
    assert(chars@.take(chars@.len() as int) =~= chars@);
    assert(v@ =~= old(v)@ + encode_sprite(sprite@));
}

/// Appends an operator as it stands in a blob.
fn push_op(v: &mut Vec<u8>, op: Operator)
    ensures
        final(v)@ == old(v)@ + encode_op(op),
{
    v.push(op_to_code(op));
    match op {
        Operator::NOOP => {},
        Operator::Exit(limit) => {
            push_f32(v, limit);
        },
        Operator::Print => {},
        Operator::Draw(idx, offset, speed) => {
            v.push(idx);
            v.push(offset);
            push_f32(v, speed);
        },
        Operator::Clear(charcode) => {
            push_u32(v, charcode);
        },
    }
    assert(v@ =~= old(v)@ + encode_op(op));
}

/// What reading an item from the front of some bytes gives: the item and
/// the bytes behind it, or why there is no item.
pub type Parsed<T> = Result<(T, Seq<u8>), DecodeError>;

/// Reads one byte.
pub open spec fn parse_u8(input: Seq<u8>) -> Parsed<u8> {
    if input.len() < 1 {
        Err(DecodeError::Truncated)
    } else {
        Ok((input[0], input.skip(1)))
    }
}

/// Reads a number of four bytes, least significant first.
pub open spec fn parse_u32(input: Seq<u8>) -> Parsed<u32> {
    if input.len() < 4 {
        Err(DecodeError::Truncated)
    } else {
        Ok((u32_of_le_bytes(input), input.skip(4)))
    }
}

/// Reads `n` characters of four bytes each.
pub open spec fn parse_chars(input: Seq<u8>, n: nat) -> Parsed<Seq<char>>
    decreases n,
{
    if n == 0 {
        Ok((Seq::empty(), input))
    } else {
        match parse_u32(input) {
            Err(e) => Err(e),
            Ok((code, rest)) => if !is_scalar(code) {
                Err(DecodeError::InvalidScalar)
            } else {
                match parse_chars(rest, (n - 1) as nat) {
                    Err(e) => Err(e),
                    Ok((chars, rest)) => Ok((seq![code as char] + chars, rest)),
                }
            },
        }
    }
}

/// Reads a sprite: the number of its characters, then the characters.
pub open spec fn parse_sprite(input: Seq<u8>) -> Parsed<Seq<char>> {
    match parse_u8(input) {
        Err(e) => Err(e),
        Ok((len, rest)) => parse_chars(rest, len as nat),
    }
}

/// Reads `n` sprites.
pub open spec fn parse_sprites(input: Seq<u8>, n: nat) -> Parsed<Seq<Seq<char>>>
    decreases n,
{
    if n == 0 {
        Ok((Seq::empty(), input))
    } else {
        match parse_sprite(input) {
            Err(e) => Err(e),
            Ok((sprite, rest)) => match parse_sprites(rest, (n - 1) as nat) {
                Err(e) => Err(e),
                Ok((sprites, rest)) => Ok((seq![sprite] + sprites, rest)),
            },
        }
    }
}

/// Reads an operator: its opcode, then its operands.
pub open spec fn parse_op(input: Seq<u8>) -> Parsed<Operator> {
    match parse_u8(input) {
        Err(e) => Err(e),
        Ok((code, rest)) => match operator_of(code) {
            Operator::NOOP => Ok((Operator::NOOP, rest)),
            Operator::Print => Ok((Operator::Print, rest)),
            Operator::Exit(_) => match parse_u32(rest) {
                Err(e) => Err(e),
                Ok((limit, rest)) => Ok((Operator::Exit(limit), rest)),
            },
            Operator::Clear(_) => match parse_u32(rest) {
                Err(e) => Err(e),
                Ok((charcode, rest)) => Ok((Operator::Clear(charcode), rest)),
            },
            Operator::Draw(_, _, _) => match parse_u8(rest) {
                Err(e) => Err(e),
                Ok((sprite_idx, rest)) => match parse_u8(rest) {
                    Err(e) => Err(e),
                    Ok((offset, rest)) => match parse_u32(rest) {
                        Err(e) => Err(e),
                        Ok((speed, rest)) => Ok((Operator::Draw(sprite_idx, offset, speed), rest)),
                    },
                },
            },
        },
    }
}

/// Reads `n` operators and keeps those that are no `NOOP`.
pub open spec fn parse_ops(input: Seq<u8>, n: nat) -> Parsed<Seq<Operator>>
    decreases n,
{
    if n == 0 {
        Ok((Seq::empty(), input))
    } else {
        match parse_op(input) {
            Err(e) => Err(e),
            Ok((op, rest)) => match parse_ops(rest, (n - 1) as nat) {
                Err(e) => Err(e),
                Ok((ops, rest)) => Ok((kept(op) + ops, rest)),
            },
        }
    }
}

/// What is kept of an operator that was read: nothing of a `NOOP`.
pub open spec fn kept(op: Operator) -> Seq<Operator> {
    if op == Operator::NOOP {
        Seq::empty()
    } else {
        seq![op]
    }
}

/// Reads a blob: the sprite table and the program. Bytes behind the last
/// operator are not looked at.
pub open spec fn parse(input: Seq<u8>) -> Result<(Seq<Seq<char>>, Seq<Operator>), DecodeError> {
    match parse_u8(input) {
        Err(e) => Err(e),
        Ok((n_sprites, rest)) => match parse_sprites(rest, n_sprites as nat) {
            Err(e) => Err(e),
            Ok((sprites, rest)) => match parse_u8(rest) {
                Err(e) => Err(e),
                Ok((n_operators, rest)) => match parse_ops(rest, n_operators as nat) {
                    Err(e) => Err(e),
                    Ok((operators, _)) => Ok((sprites, operators)),
                },
            },
        }
    }
}

/// A blob that is read from front to back.
pub struct DataBlob {
    data: Vec<u8>,
    idx: usize,
}

impl DataBlob {
    /// All the bytes of the blob.
    pub closed spec fn data(&self) -> Seq<u8> {
        self.data@
    }

    /// The number of bytes that lie before the next one to read.
    pub closed spec fn position(&self) -> nat {
        self.idx as nat
    }

    /// The bytes still to read.
    pub open spec fn remaining(&self) -> Seq<u8> {
        if self.position() <= self.data().len() {
            self.data().skip(self.position() as int)
        } else {
            Seq::empty()
        }
    }

    pub fn new(data: Vec<u8>) -> (blob: DataBlob)
        ensures
            blob.data() == data@,
            blob.position() == 0,
    {
        DataBlob { data: data, idx: 0 }
    }

    /// The number of bytes still to read.
    pub fn left(&self) -> (n: usize)
        ensures
            n == self.remaining().len(),
    {
        if self.idx <= self.data.len() {
            self.data.len() - self.idx
        } else {
            0
        }
    }

    pub fn skip(&mut self, skip_len: usize)
        requires
            old(self).position() + skip_len <= usize::MAX,
        ensures
            final(self).data() == old(self).data(),
            final(self).position() == old(self).position() + skip_len,
    {
        self.idx += skip_len
    }

    pub fn read_u8(&mut self) -> (number: u8)
        requires
            old(self).position() < old(self).data().len(),
        ensures
            number == old(self).data()[old(self).position() as int],
            parse_u8(old(self).remaining()) == Ok::<(u8, Seq<u8>), DecodeError>(
                (number, final(self).remaining()),
            ),
            final(self).data() == old(self).data(),
            final(self).position() == old(self).position() + 1,
    {
        assert(self.data.len() <= usize::MAX);
        let number = self.data[self.idx];
        self.idx += 1;
        assert(self.remaining() =~= old(self).remaining().skip(1));
        number
    }

    pub fn read_u32(&mut self) -> (number: u32)
        requires
            old(self).position() + 4 <= old(self).data().len(),
        ensures
            number == u32_of_le_bytes(old(self).remaining()),
            parse_u32(old(self).remaining()) == Ok::<(u32, Seq<u8>), DecodeError>(
                (number, final(self).remaining()),
            ),
            final(self).data() == old(self).data(),
            final(self).position() == old(self).position() + 4,
    {
        assert(self.data.len() <= usize::MAX);
        let b0: u32 = self.data[self.idx] as u32;
        let b1: u32 = self.data[self.idx + 1] as u32;
        let b2: u32 = self.data[self.idx + 2] as u32;
        let b3: u32 = self.data[self.idx + 3] as u32;
        self.idx += 4;
        assert(self.remaining() =~= old(self).remaining().skip(4));
        b0 + b1 * 0x100 + b2 * 0x1_0000 + b3 * 0x100_0000
    }

    /// Reads a 32-bit float and gives its bit pattern.
    pub fn read_f32(&mut self) -> (number: u32)
        requires
            old(self).position() + 4 <= old(self).data().len(),
        ensures
            number == u32_of_le_bytes(old(self).remaining()),
            parse_u32(old(self).remaining()) == Ok::<(u32, Seq<u8>), DecodeError>(
                (number, final(self).remaining()),
            ),
            final(self).data() == old(self).data(),
            final(self).position() == old(self).position() + 4,
    {
        self.read_u32()
    }

    pub fn read_u8_vec(&mut self, str_len: usize) -> (text: Vec<u8>)
        requires
            old(self).position() + str_len <= old(self).data().len(),
        ensures
            text@ == old(self).remaining().take(str_len as int),
            final(self).data() == old(self).data(),
            final(self).position() == old(self).position() + str_len,
    {
        let mut text: Vec<u8> = Vec::new();
        let mut i: usize = 0;
        while i < str_len
            invariant
                i <= str_len,
                self.idx + str_len <= self.data.len(),
                self.idx == old(self).idx,
                self.data == old(self).data,
                text@ == self.remaining().take(i as int),
            decreases str_len - i,
        {
            text.push(self.data[self.idx + i]);
            i += 1;
            assert(text@ =~= self.remaining().take(i as int));
        }
        self.idx += str_len;
        text
    }

    /// Reads `str_len` bytes as UTF-8 text. A length of zero gives the empty
    /// text, wherever the blob stands.
    pub fn read_str(&mut self, str_len: usize) -> (text: &str)
        requires
            str_len > 0 ==> old(self).position() + str_len <= old(self).data().len() && valid_utf8(
                old(self).remaining().take(str_len as int),
            ),
        ensures
            str_len == 0 ==> text@ == Seq::<char>::empty(),
            str_len > 0 ==> text@ == decode_utf8(old(self).remaining().take(str_len as int)),
            final(self).data() == old(self).data(),
            final(self).position() == old(self).position() + str_len,
    {
        match self.try_read_str(str_len) {
            Some(text) => text,
            None => vstd::pervasive::unreached(),
        }
    }

    /// Reads `str_len` bytes as UTF-8 text where the blob holds as many and
    /// they are UTF-8, and leaves the blob as it is where not. A length of
    /// zero gives the empty text, wherever the blob stands.
    pub fn try_read_str(&mut self, str_len: usize) -> (res: Option<&str>)
        ensures
            res is Some <==> str_len == 0 || (old(self).position() + str_len <= old(
                self,
            ).data().len() && valid_utf8(old(self).remaining().take(str_len as int))),
            res is Some && str_len == 0 ==> res->0@ == Seq::<char>::empty(),
            res is Some && str_len > 0 ==> res->0@ == decode_utf8(
                old(self).remaining().take(str_len as int),
            ),
            final(self).data() == old(self).data(),
            res is Some ==> final(self).position() == old(self).position() + str_len,
            res is None ==> final(self).position() == old(self).position(),
    {
        if str_len == 0 {
            proof {
                reveal_strlit("");
            }
            return Some("");
        }
        if self.left() < str_len {
            return None;
        }
        let start: usize = self.idx;
        assert(self.data.len() <= usize::MAX);
        assert(self.data@.subrange(start as int, start + str_len) =~= self.remaining().take(
            str_len as int,
        ));
        match str_from_utf8(slice_subrange(self.data.as_slice(), start, start + str_len)) {
            Some(text) => {
                self.idx = start + str_len;
                Some(text)
            },
            None => None,
        }
    }

    /// Reads one byte where the blob holds one more.
    pub fn try_read_u8(&mut self) -> (res: Result<u8, DecodeError>)
        ensures
            took(res, final(self).remaining(), parse_u8(old(self).remaining())),
            final(self).data() == old(self).data(),
            res is Ok ==> final(self).position() == old(self).position() + 1,
            res is Err ==> final(self).position() == old(self).position(),
    {
        if self.left() < 1 {
            Err(DecodeError::Truncated)
        } else {
            Ok(self.read_u8())
        }
    }

    /// Reads a number of four bytes where the blob holds four more.
    pub fn try_read_u32(&mut self) -> (res: Result<u32, DecodeError>)
        ensures
            took(res, final(self).remaining(), parse_u32(old(self).remaining())),
            final(self).data() == old(self).data(),
            res is Ok ==> final(self).position() == old(self).position() + 4,
            res is Err ==> final(self).position() == old(self).position(),
    {
        if self.left() < 4 {
            Err(DecodeError::Truncated)
        } else {
            Ok(self.read_u32())
        }
    }

    /// Reads `str_len` characters of four bytes each where the blob holds
    /// them, and leaves the blob as it is where not.
    pub fn try_read_char_vec(&mut self, str_len: usize) -> (res: Result<Vec<char>, DecodeError>)
        ensures
            match parse_chars(old(self).remaining(), str_len as nat) {
                Ok((chars, rest)) => res is Ok && res->Ok_0@ == chars && final(self).remaining()
                    == rest,
                Err(e) => res is Err && res->Err_0 == e,
            },
            final(self).data() == old(self).data(),
            res is Ok ==> final(self).position() == old(self).position() + 4 * str_len,
            res is Err ==> final(self).position() == old(self).position(),
    {
        let mut text: Vec<char> = Vec::new();
        let ghost start = self.remaining();
        let first: usize = self.idx;
        let mut i: usize = 0;
        while i < str_len
            invariant
                i <= str_len,
                self.data() == old(self).data(),
                first == old(self).idx,
                self.position() == first + 4 * i,
                start == old(self).remaining(),
                parse_chars(start, str_len as nat) == prepend(
                    text@,
                    parse_chars(self.remaining(), (str_len - i) as nat),
                ),
            decreases str_len - i,
        {
            let ghost done = text@;
            let n: u32 = match self.try_read_u32() {
                Ok(n) => n,
                Err(e) => {
                    self.idx = first;
                    return Err(e);
                },
            };
            let ch: char = match char::from_u32(n) {
                Some(ch) => ch,
                None => {
                    self.idx = first;
                    return Err(DecodeError::InvalidScalar);
                },
            };
            text.push(ch);
            i += 1;
            proof {
                match parse_chars(self.remaining(), (str_len - i) as nat) {
                    Ok((chars, rest)) => {
                        assert(done + (seq![ch] + chars) =~= text@ + chars);
                    },
                    Err(e) => {},
                }
            }
        }
        assert(text@ + Seq::<char>::empty() =~= text@);
        Ok(text)
    }

    /// Reads `str_len` characters of four bytes each.
    pub fn read_char_vec(&mut self, str_len: usize) -> (text: Vec<char>)
        requires
            parse_chars(old(self).remaining(), str_len as nat) is Ok,
        ensures
            parse_chars(old(self).remaining(), str_len as nat) == Ok::<
                (Seq<char>, Seq<u8>),
                DecodeError,
            >((text@, final(self).remaining())),
            final(self).data() == old(self).data(),
            final(self).position() == old(self).position() + 4 * str_len,
    {
        match self.try_read_char_vec(str_len) {
            Ok(text) => text,
            Err(_) => vstd::pervasive::unreached(),
        }
    }
}

/// `core::str::from_utf8` gives the text that the bytes hold where they are
/// UTF-8, and nothing where they are not.
#[verifier::external_body]
fn str_from_utf8(bytes: &[u8]) -> (text: Option<&str>)
    ensures
        text is Some <==> valid_utf8(bytes@),
        text is Some ==> text->0@ == decode_utf8(bytes@),
{
    core::str::from_utf8(bytes).ok()
}

/// Whether `res` and the bytes left `after` it are what `parsed` says.
pub open spec fn took<T>(res: Result<T, DecodeError>, after: Seq<u8>, parsed: Parsed<T>) -> bool {
    match parsed {
        Ok((item, rest)) => res == Ok::<T, DecodeError>(item) && after == rest,
        Err(e) => res == Err::<T, DecodeError>(e),
    }
}

/// The items read so far, then what reading on gives.
pub open spec fn prepend<T>(done: Seq<T>, more: Parsed<Seq<T>>) -> Parsed<Seq<T>> {
    match more {
        Err(e) => Err(e),
        Ok((items, rest)) => Ok((done + items, rest)),
    }
}

/// Reads a sprite where the blob holds one.
fn take_sprite(blob: &mut DataBlob) -> (res: Result<String, DecodeError>)
    ensures
        match parse_sprite(old(blob).remaining()) {
            Ok((sprite, rest)) => res is Ok && res->Ok_0@ == sprite && final(blob).remaining()
                == rest,
            Err(e) => res is Err && res->Err_0 == e,
        },
{
    // length of the sprite in chars, not in u8
    let l: u8 = match blob.try_read_u8() {
        Ok(l) => l,
        Err(e) => {
            return Err(e);
        },
    };
    match blob.try_read_char_vec(l as usize) {
        Ok(v) => Ok(text_of(&v)),
        Err(e) => Err(e),
    }
}

/// Reads an operator where the blob holds one.
fn take_op(blob: &mut DataBlob) -> (res: Result<Operator, DecodeError>)
    ensures
        took(res, final(blob).remaining(), parse_op(old(blob).remaining())),
{
    let code: u8 = match blob.try_read_u8() {
        Ok(code) => code,
        Err(e) => {
            return Err(e);
        },
    };
    match code_to_op(code) {
        Operator::NOOP => Ok(Operator::NOOP),
        Operator::Print => Ok(Operator::Print),
        Operator::Exit(_) => match blob.try_read_u32() {
            Ok(limit) => Ok(Operator::Exit(limit)),
            Err(e) => Err(e),
        },
        Operator::Clear(_) => match blob.try_read_u32() {
            Ok(charcode) => Ok(Operator::Clear(charcode)),
            Err(e) => Err(e),
        },
        Operator::Draw(_, _, _) => {
            let sprite_idx: u8 = match blob.try_read_u8() {
                Ok(b) => b,
                Err(e) => {
                    return Err(e);
                },
            };
            let offset: u8 = match blob.try_read_u8() {
                Ok(b) => b,
                Err(e) => {
                    return Err(e);
                },
            };
            match blob.try_read_u32() {
                Ok(speed) => Ok(Operator::Draw(sprite_idx, offset, speed)),
                Err(e) => Err(e),
            }
        },
    }
}

/// No `NOOP` is among the operators that `parse_ops` gives.
pub proof fn lemma_parse_ops_keeps_no_noop(input: Seq<u8>, n: nat)
    ensures
        match parse_ops(input, n) {
            Ok((ops, _)) => forall|i: int| 0 <= i < ops.len() ==> ops[i] != Operator::NOOP,
            Err(_) => true,
        },
    decreases n,
{
    if n > 0 {
        match parse_op(input) {
            Ok((op, rest)) => {
                lemma_parse_ops_keeps_no_noop(rest, (n - 1) as nat);
            },
            Err(_) => {},
        }
    }
}

/// A program without its `NOOP`s.
pub open spec fn without_noops(operators: Seq<Operator>) -> Seq<Operator> {
    operators.filter(|op: Operator| op != Operator::NOOP)
}

/// The items of a sequence, each turned into a sequence and all laid end to
/// end: the first item's, then the others'.
proof fn lemma_flat_map_first<A, B>(s: Seq<A>, f: spec_fn(A) -> Seq<B>)
    requires
        s.len() > 0,
    ensures
        s.flat_map(f) == f(s[0]) + s.drop_first().flat_map(f),
{
    assert(s.map_values(f).drop_first() =~= s.drop_first().map_values(f));
}

/// Reading back the characters of a sprite as they stand in a blob gives
/// the characters, and leaves what stands behind them.
pub proof fn lemma_parse_encoded_chars(chars: Seq<char>, tail: Seq<u8>)
    ensures
        parse_chars(encode_chars(chars) + tail, chars.len()) == Ok::<
            (Seq<char>, Seq<u8>),
            DecodeError,
        >((chars, tail)),
    decreases chars.len(),
{
    let each = |ch: char| encode_char(ch);
    let input = encode_chars(chars) + tail;
    if chars.len() == 0 {
        assert(chars.map_values(each) =~= Seq::empty());
        assert(input =~= tail);
        assert(chars =~= Seq::empty());
    } else {
        let ch = chars[0];
        let others = chars.drop_first();
        lemma_flat_map_first(chars, each);
        lemma_u32_of_le_bytes_of(ch as u32);
        vstd::utf8::char_is_scalar(ch);
        vstd::utf8::char_u32_cast(ch, ch as u32);
        assert(u32_of_le_bytes(input) == u32_of_le_bytes(u32_le_bytes(ch as u32)));
        assert(input.skip(4) =~= encode_chars(others) + tail);
        lemma_parse_encoded_chars(others, tail);
        assert(seq![ch] + others =~= chars);
    }
}

/// Reading back a sprite of at most 255 characters as it stands in a blob
/// gives the sprite, and leaves what stands behind it.
pub proof fn lemma_parse_encoded_sprite(sprite: Seq<char>, tail: Seq<u8>)
    requires
        sprite.len() <= 255,
    ensures
        parse_sprite(encode_sprite(sprite) + tail) == Ok::<(Seq<char>, Seq<u8>), DecodeError>(
            (sprite, tail),
        ),
{
    let input = encode_sprite(sprite) + tail;
    assert(input.len() >= 1);
    assert(input[0] == sprite.len());
    assert(input.skip(1) =~= encode_chars(sprite) + tail);
    lemma_parse_encoded_chars(sprite, tail);
}

/// Reading back sprites of at most 255 characters each as they stand in a
/// blob gives the sprites, and leaves what stands behind them.
pub proof fn lemma_parse_encoded_sprites(sprites: Seq<Seq<char>>, tail: Seq<u8>)
    requires
        forall|i: int| 0 <= i < sprites.len() ==> (#[trigger] sprites[i]).len() <= 255,
    ensures
        parse_sprites(encode_sprites(sprites) + tail, sprites.len()) == Ok::<
            (Seq<Seq<char>>, Seq<u8>),
            DecodeError,
        >((sprites, tail)),
    decreases sprites.len(),
{
    let each = |sprite: Seq<char>| encode_sprite(sprite);
    let input = encode_sprites(sprites) + tail;
    if sprites.len() == 0 {
        assert(sprites.map_values(each) =~= Seq::empty());
        assert(input =~= tail);
        assert(sprites =~= Seq::empty());
    } else {
        let sprite = sprites[0];
        let others = sprites.drop_first();
        lemma_flat_map_first(sprites, each);
        assert(input =~= encode_sprite(sprite) + (encode_sprites(others) + tail));
        lemma_parse_encoded_sprite(sprite, encode_sprites(others) + tail);
        assert forall|i: int| 0 <= i < others.len() implies (#[trigger] others[i]).len() <= 255 by {
            assert(others[i] == sprites[i + 1]);
        }
        lemma_parse_encoded_sprites(others, tail);
        assert(seq![sprite] + others =~= sprites);
    }
}

/// Reading back an operator as it stands in a blob gives the operator, and
/// leaves what stands behind it.
pub proof fn lemma_parse_encoded_op(op: Operator, tail: Seq<u8>)
    ensures
        parse_op(encode_op(op) + tail) == Ok::<(Operator, Seq<u8>), DecodeError>((op, tail)),
{
    let input = encode_op(op) + tail;
    let rest = input.skip(1);
    assert(input[0] == opcode(op));
    assert(rest =~= operands(op) + tail);
    match op {
        Operator::NOOP => {
            assert(rest =~= tail);
        },
        Operator::Print => {
            assert(rest =~= tail);
        },
        Operator::Exit(limit) => {
            lemma_u32_of_le_bytes_of(limit);
            assert(u32_of_le_bytes(rest) == u32_of_le_bytes(u32_le_bytes(limit)));
            assert(rest.skip(4) =~= tail);
        },
        Operator::Clear(charcode) => {
            lemma_u32_of_le_bytes_of(charcode);
            assert(u32_of_le_bytes(rest) == u32_of_le_bytes(u32_le_bytes(charcode)));
            assert(rest.skip(4) =~= tail);
        },
        Operator::Draw(sprite_idx, offset, speed) => {
            lemma_u32_of_le_bytes_of(speed);
            let rest2 = rest.skip(1).skip(1);
            assert(rest2 =~= u32_le_bytes(speed) + tail);
            assert(u32_of_le_bytes(rest2) == u32_of_le_bytes(u32_le_bytes(speed)));
            assert(rest2.skip(4) =~= tail);
        },
    }
}

/// Reading back a program as it stands in a blob gives the program without
/// its `NOOP`s, and leaves what stands behind it.
pub proof fn lemma_parse_encoded_ops(operators: Seq<Operator>, tail: Seq<u8>)
    ensures
        parse_ops(encode_ops(operators) + tail, operators.len()) == Ok::<
            (Seq<Operator>, Seq<u8>),
            DecodeError,
        >((without_noops(operators), tail)),
    decreases operators.len(),
{
    let each = |op: Operator| encode_op(op);
    let keep = |op: Operator| op != Operator::NOOP;
    let input = encode_ops(operators) + tail;
    if operators.len() == 0 {
        assert(operators.map_values(each) =~= Seq::empty());
        assert(input =~= tail);
        reveal(Seq::filter);
        assert(operators.filter(keep) =~= Seq::empty());
    } else {
        let op = operators[0];
        let others = operators.drop_first();
        lemma_flat_map_first(operators, each);
        assert(input =~= encode_op(op) + (encode_ops(others) + tail));
        lemma_parse_encoded_op(op, encode_ops(others) + tail);
        lemma_parse_encoded_ops(others, tail);
        others.lemma_filter_prepend(op, keep);
        assert(seq![op] + others =~= operators);
        assert(kept(op) + others.filter(keep) =~= operators.filter(keep));
    }
}

/// Reading back the blob of a sprite table and a program gives the sprite
/// table and the program without its `NOOP`s, where each count fits in one
/// byte: there are at most 255 sprites of at most 255 characters each, and at
/// most 255 operators.
pub proof fn lemma_parse_encoded(sprites: Seq<Seq<char>>, operators: Seq<Operator>)
    requires
        sprites.len() <= 255,
        forall|i: int| 0 <= i < sprites.len() ==> (#[trigger] sprites[i]).len() <= 255,
        operators.len() <= 255,
    ensures
        parse(encode(sprites, operators)) == Ok::<(Seq<Seq<char>>, Seq<Operator>), DecodeError>(
            (sprites, without_noops(operators)),
        ),
{
    let input = encode(sprites, operators);
    let program = seq![(operators.len() % 256) as u8] + encode_ops(operators);
    let table = encode_sprites(sprites);
    let code = encode_ops(operators);
    assert(parse_u8(input) == Ok::<(u8, Seq<u8>), DecodeError>(
        (sprites.len() as u8, table + program),
    )) by {
        assert(input.len() >= 1);
        assert(input[0] == sprites.len());
        assert(input.skip(1) =~= table + program);
    }
    assert(parse_sprites(table + program, sprites.len()) == Ok::<
        (Seq<Seq<char>>, Seq<u8>),
        DecodeError,
    >((sprites, program))) by {
        lemma_parse_encoded_sprites(sprites, program);
    }
    assert(parse_u8(program) == Ok::<(u8, Seq<u8>), DecodeError>((operators.len() as u8, code)))
        by {
        assert(program.len() >= 1);
        assert(program[0] == operators.len());
        assert(program.skip(1) =~= code);
    }
    assert(parse_ops(code, operators.len()) == Ok::<(Seq<Operator>, Seq<u8>), DecodeError>(
        (without_noops(operators), Seq::empty()),
    )) by {
        assert(code + Seq::<u8>::empty() =~= code);
        lemma_parse_encoded_ops(operators, Seq::empty());
    }
}

impl Bytecode for Dmo {
    /// The blob of the sprites and the operators. A count is written in one
    /// byte: one over 255 is written as its remainder on division by 256.
    fn to_bytecode(&self) -> (res: Vec<u8>)
        ensures
            res@ == encode(sprite_table(self.context().sprites@), self.operators()),
    {
        let mut res: Vec<u8> = Vec::new();
        let sprites = self.get_sprites();
        let operators = self.get_operators();
        let ghost table = sprite_table(sprites@);
        let ghost each_sprite = |sprite: Seq<char>| encode_sprite(sprite);
        let ghost each_op = |op: Operator| encode_op(op);

        res.push((sprites.len() % 256) as u8);
        let mut i: usize = 0;
        assert(table.take(0).map_values(each_sprite) =~= Seq::empty());
        while i < sprites.len()
            invariant
                i <= sprites.len(),
                table == sprite_table(sprites@),
                each_sprite == |sprite: Seq<char>| encode_sprite(sprite),
                res@ == seq![(table.len() % 256) as u8] + table.take(i as int).flat_map(
                    each_sprite,
                ),
            decreases sprites.len() - i,
        {
            proof {
                table.lemma_flat_map_take_append(each_sprite, i as int);
            }
            push_sprite(&mut res, sprites[i].as_str());
            i += 1;
        }
        assert(table.take(table.len() as int) =~= table);

        let ghost head = res@;
        res.push((operators.len() % 256) as u8);
        let mut k: usize = 0;
        assert(operators@.take(0).map_values(each_op) =~= Seq::empty());
        while k < operators.len()
            invariant
                k <= operators.len(),
                each_op == |op: Operator| encode_op(op),
                res@ == head + seq![(operators@.len() % 256) as u8] + operators@.take(
                    k as int,
                ).flat_map(each_op),
            decreases operators.len() - k,
        {
            proof {
                operators@.lemma_flat_map_take_append(each_op, k as int);
            }
            push_op(&mut res, operators[k]);
            k += 1;
        }
        assert(operators@.take(operators@.len() as int) =~= operators@);
        res
    }

    /// Reads a blob. The `Dmo` that comes out holds the sprites and the
    /// operators of the blob, without any `NOOP`, in a fresh context, and no
    /// compiled function yet.
    #[verifier::loop_isolation(false)]
    fn from_bytecode(data: Vec<u8>) -> (res: Result<Dmo, DecodeError>)
        ensures
            match parse(data@) {
                Ok((sprites, operators)) => {
                    &&& res is Ok
                    &&& sprite_table(res->Ok_0.context().sprites@) == sprites
                    &&& res->Ok_0.operators() == operators
                    &&& res->Ok_0.context().buffer@ == filled(BUFFER_SIZE as nat, '_')
                    &&& res->Ok_0.context().is_running
                    &&& res->Ok_0.context().time == 0
                    &&& res->Ok_0.jit_fn().image() == Seq::<u8>::empty()
                },
                Err(e) => res is Err && res->Err_0 == e,
            },
            res is Ok ==> forall|i: int|
                0 <= i < res->Ok_0.operators().len() ==> res->Ok_0.operators()[i]
                    != Operator::NOOP,
    {
        let mut blob = DataBlob::new(data);

        let mut context = Context::new();

        let mut n_sprites: u8 = match blob.try_read_u8() {
            Ok(n) => n,
            Err(e) => {
                return Err(e);
            },
        };
        let ghost sprites_at = blob.remaining();
        let ghost sprites_total = n_sprites as nat;
        assert(sprite_table(context.sprites@) =~= Seq::empty());

        while n_sprites >= 1
            invariant
                parse_sprites(sprites_at, sprites_total) == prepend(
                    sprite_table(context.sprites@),
                    parse_sprites(blob.remaining(), n_sprites as nat),
                ),
                context.buffer@ == filled(BUFFER_SIZE as nat, '_'),
                context.is_running,
                context.time == 0,
            decreases n_sprites,
        {
            let ghost done = sprite_table(context.sprites@);
            let s: String = match take_sprite(&mut blob) {
                Ok(s) => s,
                Err(e) => {
                    return Err(e);
                },
            };

            context.sprites.push(s);

            n_sprites -= 1;
            proof {
                assert(sprite_table(context.sprites@) =~= done.push(s@));
                match parse_sprites(blob.remaining(), n_sprites as nat) {
                    Ok((sprites, rest)) => {
                        assert(done + (seq![s@] + sprites) =~= done.push(s@) + sprites);
                    },
                    Err(e) => {},
                }
            }
        }
        assert(sprite_table(context.sprites@) + Seq::<Seq<char>>::empty() =~= sprite_table(
            context.sprites@,
        ));

        // === Operators ===

        let mut operators: Vec<Operator> = Vec::new();

        let mut n_operators: u8 = match blob.try_read_u8() {
            Ok(n) => n,
            Err(e) => {
                return Err(e);
            },
        };
        let ghost operators_at = blob.remaining();
        let ghost operators_total = n_operators as nat;

        while n_operators >= 1
            invariant
                parse_ops(operators_at, operators_total) == prepend(
                    operators@,
                    parse_ops(blob.remaining(), n_operators as nat),
                ),
            decreases n_operators,
        {
            let ghost done = operators@;
            let op_val: Operator = match take_op(&mut blob) {
                Ok(op) => op,
                Err(e) => {
                    return Err(e);
                },
            };

            match op_val {
                Operator::NOOP => {},
                _ => operators.push(op_val),
            }

            n_operators -= 1;
            proof {
                assert(operators@ =~= done + kept(op_val));
                match parse_ops(blob.remaining(), n_operators as nat) {
                    Ok((ops, rest)) => {
                        assert(done + (kept(op_val) + ops) =~= operators@ + ops);
                    },
                    Err(e) => {},
                }
            }
        }
        proof {
            assert(operators@ + Seq::<Operator>::empty() =~= operators@);
            lemma_parse_ops_keeps_no_noop(operators_at, operators_total);
        }

        Ok(Dmo::new(context, operators))
    }
}

} // verus!
