use crate::ieee754::{greater, gt};
use crate::jit::x86::{program_code, program_len, Abi, CallTable};
use crate::jit::{region_image, JitError, JitFn, PAGE_SIZE};
use crate::text::chars_of;
use vstd::prelude::*;
use vstd::utf8::is_scalar;

verus! {

/// Number of characters in the text buffer.
pub const BUFFER_SIZE: usize = 50;

/// One instruction of a program. A 32-bit float operand is held as its
/// IEEE-754 bit pattern.
#[derive(Clone, Copy, Debug, PartialEq, Eq, Structural)]
pub enum Operator {
    /// No operation.
    NOOP,
    /// Leave the main loop once the time is greater than this limit.
    Exit(u32),
    /// Print the text buffer.
    Print,
    /// Draw a sprite into the buffer: sprite index, offset, speed.
    Draw(u8, u8, u32),
    /// Fill the text buffer with the character of this code.
    Clear(u32),
}

/// The state that a running program works on.
pub struct Context {
    pub sprites: Vec<String>,
    pub buffer: Vec<char>,
    pub is_running: bool,
    /// the time as the bit pattern of a 32-bit float
    pub time: u32,
}

/// Holds the data we need to access when running the code.
///
/// The `Context` and `Vec<Operator>` are private to make them only accessible
/// through API calls which should remember to rebuild the `JitFn` as well.
pub struct Dmo {
    context: Context,
    operators: Vec<Operator>,
    jit_fn: JitFn,
}

/// The sprites as sequences of characters.
pub open spec fn sprite_table(sprites: Seq<String>) -> Seq<Seq<char>> {
    sprites.map_values(|s: String| s@)
}

/// A buffer of `len` characters, each of them `ch`.
pub open spec fn filled(len: nat, ch: char) -> Seq<char> {
    Seq::new(len, |i: int| ch)
}

/// The line that shows a buffer: five spaces, the buffer, and a carriage
/// return that takes the cursor back to the start of the line.
pub open spec fn frame(buffer: Seq<char>) -> Seq<char> {
    filled(5, ' ') + buffer + seq!['\r']
}

/// The cell of a buffer of `n` cells that holds character `i` of a sprite
/// drawn at `at`.
pub open spec fn cell_of(at: int, i: int, n: int) -> int {
    (at + i) % n
}

/// The last of the first `len` characters of a sprite that is written to
/// cell `cell` of a buffer of `n` cells when the sprite is drawn at `at`;
/// nothing where none of them goes there.
pub open spec fn last_writer(cell: int, at: int, len: nat, n: int) -> Option<int>
    decreases len,
{
    if len == 0 {
        None
    } else if cell_of(at, len - 1, n) == cell {
        Some(len - 1)
    } else {
        last_writer(cell, at, (len - 1) as nat, n)
    }
}

/// The buffer after `sprite` is drawn into it from cell `at % buffer.len()`
/// on, wrapping round at the end: each cell holds the last character written
/// to it, or what it held before where none was.
pub open spec fn drawn(buffer: Seq<char>, sprite: Seq<char>, at: int) -> Seq<char> {
    Seq::new(
        buffer.len(),
        |cell: int|
            match last_writer(cell, at, sprite.len(), buffer.len() as int) {
                Some(i) => sprite[i],
                None => buffer[cell],
            },
    )
}

/// What `last_writer` finds is a character of the sprite that goes to the
/// cell.
pub proof fn lemma_last_writer_writes(cell: int, at: int, len: nat, n: int)
    ensures
        match last_writer(cell, at, len, n) {
            Some(i) => 0 <= i < len && cell_of(at, i, n) == cell,
            None => forall|i: int| 0 <= i < len ==> #[trigger] cell_of(at, i, n) != cell,
        },
    decreases len,
{
    if len > 0 && cell_of(at, len - 1, n) != cell {
        lemma_last_writer_writes(cell, at, (len - 1) as nat, n);
    }
}

/// A sprite no longer than the buffer is found in the buffer whole after it
/// is drawn: character `i` stands in cell `(at + i) % buffer.len()`.
pub proof fn lemma_draw_wraps(buffer: Seq<char>, sprite: Seq<char>, at: int, i: int)
    requires
        buffer.len() > 0,
        sprite.len() <= buffer.len(),
        0 <= i < sprite.len(),
    ensures
        0 <= cell_of(at, i, buffer.len() as int) < buffer.len(),
        drawn(buffer, sprite, at)[cell_of(at, i, buffer.len() as int)] == sprite[i],
{
    let n = buffer.len() as int;
    let cell = cell_of(at, i, n);
    lemma_last_writer_writes(cell, at, sprite.len(), n);
    let j = last_writer(cell, at, sprite.len(), n)->0;
    assert(last_writer(cell, at, sprite.len(), n) is Some);
    if j != i {
        lemma_mod_distinct(at + i, at + j, n);
    }
}

/// Two numbers less than `n` apart leave different remainders on division
/// by `n`.
pub proof fn lemma_mod_distinct(a: int, b: int, n: int)
    requires
        n > 0,
        a != b,
        -n < a - b < n,
    ensures
        a % n != b % n,
{
    vstd::arithmetic::div_mod::lemma_fundamental_div_mod(a, n);
    vstd::arithmetic::div_mod::lemma_fundamental_div_mod(b, n);
    if a % n == b % n {
        let d = a / n - b / n;
        assert(a - b == n * (a / n) - n * (b / n));
        assert(a - b == n * d) by (nonlinear_arith)
            requires
                a - b == n * (a / n) - n * (b / n),
                d == a / n - b / n,
        ;
        assert(false) by (nonlinear_arith)
            requires
                a - b == n * d,
                a != b,
                -n < a - b < n,
                n > 0,
        ;
    }
}

/// Clearing a buffer twice with the same character leaves what clearing it
/// once leaves.
pub proof fn lemma_clear_idempotent(buffer: Seq<char>, ch: char)
    ensures
        filled(filled(buffer.len(), ch).len(), ch) == filled(buffer.len(), ch),
{
}

impl Context {
    /// The buffer has its fixed length.
    pub open spec fn wf(&self) -> bool {
        self.buffer@.len() == BUFFER_SIZE
    }

    /// A context with no sprites, a buffer of underscores, running, at time
    /// zero.
    pub fn new() -> (context: Context)
        ensures
            context.sprites@ == Seq::<String>::empty(),
            context.buffer@ == filled(BUFFER_SIZE as nat, '_'),
            context.is_running,
            context.time == 0,
            context.wf(),
    {
        let buffer = vec!['_'; BUFFER_SIZE];
        assert(buffer@ =~= filled(BUFFER_SIZE as nat, '_'));
        Context { sprites: Vec::new(), buffer, is_running: true, time: 0 }
    }

    /// The text that shows the buffer on a terminal: it is followed by a
    /// `\r`, so the next frame overwrites it.
    pub fn impl_print(&self) -> (text: String)
        ensures
            text@ == frame(self.buffer@),
    {
        let mut text = String::new();
        let mut k: usize = 0;
        while k < 5
            invariant
                k <= 5,
                text@ == filled(k as nat, ' '),
            decreases 5 - k,
        {
            text.push(' ');
            k += 1;
            assert(text@ =~= filled(k as nat, ' '));
        }
        let mut i: usize = 0;
        while i < self.buffer.len()
            invariant
                i <= self.buffer.len(),
                text@ == filled(5, ' ') + self.buffer@.take(i as int),
            decreases self.buffer.len() - i,
        {
            text.push(self.buffer[i]);
            i += 1;
            assert(text@ =~= filled(5, ' ') + self.buffer@.take(i as int));
        }
        text.push('\r');
        assert(self.buffer@.take(self.buffer@.len() as int) =~= self.buffer@);
        text
    }

    /// `.is_running` is the break condition for the main drawing loop. This
    /// sets `.is_running` to `false` if `.time` is over the `limit`, which is
    /// the bit pattern of a 32-bit float as `.time` is.
    pub fn impl_exit(&mut self, limit: u32)
        ensures
            final(self).is_running == (old(self).is_running && !gt(old(self).time, limit)),
            !old(self).is_running ==> !final(self).is_running,
            final(self).sprites == old(self).sprites,
            final(self).buffer == old(self).buffer,
            final(self).time == old(self).time,
    {
        if greater(self.time, limit) {
            self.is_running = false;
        }
    }

    /// Writes a text sprite into the buffer, starting at cell `total_offset`
    /// and wrapping round at the end of the buffer. A `sprite_idx` that names
    /// no sprite leaves the context as it is.
    pub fn impl_draw(&mut self, sprite_idx: u8, total_offset: usize)
        requires
            old(self).wf(),
        ensures
            sprite_idx >= old(self).sprites@.len() ==> *final(self) == *old(self),
            sprite_idx < old(self).sprites@.len() ==> final(self).buffer@ == drawn(
                old(self).buffer@,
                old(self).sprites@[sprite_idx as int]@,
                total_offset as int,
            ),
            final(self).wf(),
            final(self).sprites == old(self).sprites,
            final(self).is_running == old(self).is_running,
            final(self).time == old(self).time,
    {
        if (sprite_idx as usize) < self.sprites.len() {
            let v: Vec<char> = chars_of(self.sprites[sprite_idx as usize].as_str());
            let n: usize = self.buffer.len();
            let mut pos: usize = total_offset % n;
            let mut i: usize = 0;
            assert(self.buffer@ =~= drawn(old(self).buffer@, v@.take(0), total_offset as int));
            while i < v.len()
                invariant
                    i <= v.len(),
                    n == BUFFER_SIZE,
                    pos == cell_of(total_offset as int, i as int, n as int),
                    self.buffer@ == drawn(
                        old(self).buffer@,
                        v@.take(i as int),
                        total_offset as int,
                    ),
                    self.sprites == old(self).sprites,
                    self.is_running == old(self).is_running,
                    self.time == old(self).time,
                    old(self).wf(),
                decreases v.len() - i,
            {
                self.buffer.set(pos, v[i]);
                proof {
                    let before = drawn(old(self).buffer@, v@.take(i as int), total_offset as int);
                    let after = drawn(old(self).buffer@, v@.take(i + 1), total_offset as int);
                    assert forall|cell: int| 0 <= cell < n implies #[trigger] self.buffer@[cell]
                        == after[cell] by {
                        lemma_last_writer_writes(cell, total_offset as int, i as nat, n as int);
                    }
                    assert(self.buffer@ =~= after);
                }
                pos = if pos + 1 == n {
                    0
                } else {
                    pos + 1
                };
                i += 1;
            }
            assert(v@.take(v@.len() as int) =~= v@);
        }
    }

    /// Clears the buffer by filling it with the character of code `charcode`.
    pub fn impl_clear(&mut self, charcode: u32)
        requires
            is_scalar(charcode),
        ensures
            final(self).buffer@ == filled(old(self).buffer@.len(), charcode as char),
            final(self).sprites == old(self).sprites,
            final(self).is_running == old(self).is_running,
            final(self).time == old(self).time,
    {
        let ch: char = char::from_u32(charcode).unwrap();
        let mut i: usize = 0;
        while i < self.buffer.len()
            invariant
                i <= self.buffer.len(),
                self.buffer@.len() == old(self).buffer@.len(),
                forall|k: int| 0 <= k < i ==> self.buffer@[k] == ch,
                self.sprites == old(self).sprites,
                self.is_running == old(self).is_running,
                self.time == old(self).time,
            decreases self.buffer.len() - i,
        {
            self.buffer.set(i, ch);
            i += 1;
        }
        assert(self.buffer@ =~= filled(old(self).buffer@.len(), ch));
    }
}

impl Default for Context {
    fn default() -> (context: Context)
        ensures
            context.sprites@ == Seq::<String>::empty(),
            context.buffer@ == filled(BUFFER_SIZE as nat, '_'),
            context.is_running,
            context.time == 0,
            context.wf(),
    {
        Context::new()
    }
}

impl Dmo {
    pub closed spec fn context(&self) -> Context {
        self.context
    }

    pub closed spec fn operators(&self) -> Seq<Operator> {
        self.operators@
    }

    pub closed spec fn jit_fn(&self) -> JitFn {
        self.jit_fn
    }

    /// Two steps are necessary. After `new()`, call `.build_jit_fn()`.
    pub fn new(context: Context, operators: Vec<Operator>) -> (dmo: Dmo)
        ensures
            dmo.context() == context,
            dmo.operators() == operators@,
            dmo.jit_fn().image() == Seq::<u8>::empty(),
    {
        Dmo { context: context, operators: operators, jit_fn: JitFn::default() }
    }

    /// Compiles the operators into a region of one page. `targets` holds the
    /// address at which the context of this `Dmo` stands, so this must happen
    /// once the `Dmo` has come to rest. Where the program does not fit, the
    /// function built before stays.
    pub fn build_jit_fn(&mut self, abi: Abi, targets: &CallTable) -> (res: Result<(), JitError>)
        ensures
            final(self).context() == old(self).context(),
            final(self).operators() == old(self).operators(),
            program_len(old(self).operators()) <= PAGE_SIZE ==> res is Ok
                && final(self).jit_fn().image() == region_image(
                program_code(abi, *targets, old(self).operators()),
                PAGE_SIZE as nat,
            ),
            program_len(old(self).operators()) > PAGE_SIZE ==> res == Err::<(), JitError>(
                JitError::Overrun,
            ) && final(self).jit_fn() == old(self).jit_fn(),
    {
        match JitFn::new(1, abi, targets, &self.operators) {
            Ok(jit_fn) => {
                self.jit_fn = jit_fn;
                Ok(())
            },
            Err(e) => Err(e),
        }
    }

    pub fn get_sprites(&self) -> (sprites: &Vec<String>)
        ensures
            *sprites == self.context().sprites,
    {
        &self.context.sprites
    }

    pub fn get_operators(&self) -> (operators: &Vec<Operator>)
        ensures
            operators@ == self.operators(),
    {
        &self.operators
    }

    pub fn get_is_running(&self) -> (is_running: bool)
        ensures
            is_running == self.context().is_running,
    {
        self.context.is_running
    }

    /// The time as the bit pattern of a 32-bit float.
    pub fn get_time(&self) -> (time: u32)
        ensures
            time == self.context().time,
    {
        self.context.time
    }

    /// Sets the time, given as the bit pattern of a 32-bit float.
    pub fn set_time(&mut self, time: u32)
        ensures
            final(self).context() == (Context { time: time, ..old(self).context() }),
            final(self).operators() == old(self).operators(),
            final(self).jit_fn() == old(self).jit_fn(),
    {
        self.context.time = time;
    }

    pub fn get_context(&self) -> (context: &Context)
        ensures
            *context == self.context(),
    {
        &self.context
    }

    /// The context, to work on it in place.
    pub fn get_context_mut(&mut self) -> (context: &mut Context)
        ensures
            *context == old(self).context(),
            final(self).context() == *final(context),
            final(self).operators() == old(self).operators(),
            final(self).jit_fn() == old(self).jit_fn(),
    {
        &mut self.context
    }

    pub fn get_jit_fn(&self) -> (jit_fn: &JitFn)
        ensures
            *jit_fn == self.jit_fn(),
    {
        &self.jit_fn
    }
}

impl Default for Dmo {
    fn default() -> (dmo: Dmo)
        ensures
            dmo.context().sprites@ == Seq::<String>::empty(),
            dmo.context().buffer@ == filled(BUFFER_SIZE as nat, '_'),
            dmo.context().is_running,
            dmo.context().time == 0,
            dmo.operators() == Seq::<Operator>::empty(),
            dmo.jit_fn().image() == Seq::<u8>::empty(),
    {
        Dmo { context: Context::default(), operators: Vec::new(), jit_fn: JitFn::default() }
    }
}

} // verus!
