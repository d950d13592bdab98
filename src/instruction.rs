use vstd::prelude::*;

verus! {

/// One command of the language.
#[derive(Clone, Copy, Debug, PartialEq, Eq, Structural)]
pub enum Instruction {
    /// `>`: move the data pointer one cell to the right (clamped at the last cell).
    MoveRight,
    /// `<`: move the data pointer one cell to the left (clamped at the first cell).
    MoveLeft,
    /// `+`: add one to the current cell, modulo 256.
    Increment,
    /// `-`: subtract one from the current cell, modulo 256.
    Decrement,
    /// `.`: emit the current cell.
    Output,
    /// `,`: read one byte into the current cell (zero at end of input).
    Input,
    /// `[`: skip past the matching `]` when the current cell is zero.
    LoopStart,
    /// `]`: go back past the matching `[` when the current cell is not zero.
    LoopEnd,
}

/// Whether `b` is one of the eight command characters.
pub open spec fn is_command_byte(b: u8) -> bool {
    b == 62u8 || b == 60u8 || b == 43u8 || b == 45u8 || b == 46u8 || b == 44u8 || b == 91u8
        || b == 93u8
}

/// The instruction a command byte stands for (meaningful on command bytes only).
pub open spec fn decode(b: u8) -> Instruction {
    if b == 62u8 {
        Instruction::MoveRight
    } else if b == 60u8 {
        Instruction::MoveLeft
    } else if b == 43u8 {
        Instruction::Increment
    } else if b == 45u8 {
        Instruction::Decrement
    } else if b == 46u8 {
        Instruction::Output
    } else if b == 44u8 {
        Instruction::Input
    } else if b == 91u8 {
        Instruction::LoopStart
    } else {
        Instruction::LoopEnd
    }
}

/// The instruction sequence of a source text: its command bytes, in order, decoded.
pub open spec fn program_of(src: Seq<u8>) -> Seq<Instruction>
    decreases src.len(),
{
    if src.len() == 0 {
        Seq::empty()
    } else if is_command_byte(src.last()) {
        program_of(src.drop_last()).push(decode(src.last()))
    } else {
        program_of(src.drop_last())
    }
}

/// The number of command bytes in a source text.
pub open spec fn count_commands(src: Seq<u8>) -> nat
    decreases src.len(),
{
    if src.len() == 0 {
        0
    } else {
        count_commands(src.drop_last()) + if is_command_byte(src.last()) {
            1nat
        } else {
            0nat
        }
    }
}

impl Instruction {
    /// The instruction written as `b`, or `None` for any other byte.
    pub fn from_byte(b: u8) -> (r: Option<Instruction>)
        ensures
            r == (if is_command_byte(b) {
                Some(decode(b))
            } else {
                None
            }),
    {
        // The command characters in ASCII: > < + - . , [ ]
        match b {
            62u8 => Some(Instruction::MoveRight),
            60u8 => Some(Instruction::MoveLeft),
            43u8 => Some(Instruction::Increment),
            45u8 => Some(Instruction::Decrement),
            46u8 => Some(Instruction::Output),
            44u8 => Some(Instruction::Input),
            91u8 => Some(Instruction::LoopStart),
            93u8 => Some(Instruction::LoopEnd),
            _ => None,
        }
    }
}

/// Keeps the command bytes of `source`, in their order, as instructions;
/// every other byte is dropped.
pub fn filter_commands(source: &[u8]) -> (r: Vec<Instruction>)
    ensures
        r@ == program_of(source@),
{
    let mut r: Vec<Instruction> = Vec::new();
    let mut i: usize = 0;
    while i < source.len()
        invariant
            i <= source@.len(),
            r@ == program_of(source@.subrange(0, i as int)),
        decreases source@.len() - i,
    {
        let b = source[i];
        proof {
            let s = source@.subrange(0, i as int + 1);
            assert(s.drop_last() =~= source@.subrange(0, i as int));
            assert(s.last() == b);
        }
        match Instruction::from_byte(b) {
            Some(ins) => r.push(ins),
            None => {},
        }
        i += 1;
    }
    assert(source@.subrange(0, source@.len() as int) =~= source@);
    r
}

/// The instruction sequence has exactly one entry per command byte of the source.
pub proof fn lemma_program_len(src: Seq<u8>)
    ensures
        program_of(src).len() == count_commands(src),
    decreases src.len(),
{
    if src.len() > 0 {
        lemma_program_len(src.drop_last());
    }
}

/// Filtering distributes over concatenation of source texts.
pub proof fn lemma_program_concat(a: Seq<u8>, b: Seq<u8>)
    ensures
        program_of(a + b) == program_of(a) + program_of(b),
    decreases b.len(),
{
    if b.len() == 0 {
        assert(a + b =~= a);
        assert(program_of(a) + program_of(b) =~= program_of(a));
    } else {
        lemma_program_concat(a, b.drop_last());
        assert((a + b).drop_last() =~= a + b.drop_last());
        assert((a + b).last() == b.last());
        if is_command_byte(b.last()) {
            assert(program_of(a) + program_of(b) =~= (program_of(a) + program_of(b.drop_last())).push(
                decode(b.last()),
            ));
        }
    }
}

/// A byte that is not a command can be inserted anywhere in a source text
/// without changing its instruction sequence.
pub proof fn lemma_non_command_ignored(a: Seq<u8>, b: Seq<u8>, c: u8)
    requires
        !is_command_byte(c),
    ensures
        program_of(a + seq![c] + b) == program_of(a + b),
{
    lemma_program_concat(a + seq![c], b);
    lemma_program_concat(a, seq![c]);
    lemma_program_concat(a, b);
    assert(seq![c].drop_last() =~= Seq::<u8>::empty());
    assert(seq![c].last() == c);
    assert(program_of(Seq::<u8>::empty()) =~= Seq::<Instruction>::empty());
    assert(program_of(seq![c]) =~= Seq::<Instruction>::empty());
    assert(program_of(a) + program_of(seq![c]) =~= program_of(a));
}

} // verus!
