//! Decoding a buffer of machine words into instruction lines.
//!
//! The disassembly engine is Capstone. It decodes one word at a time; what
//! becomes of its answer is decided here.

use crate::present::cell_text;
use vstd::prelude::*;
use vstd::slice::slice_subrange;

verus! {

/// The disassembly engine, configured for one architecture and mode.
#[verifier::external_type_specification]
#[verifier::external_body]
pub struct ExCapstone(capstone::Capstone);

/// One instruction as the engine reports it.
#[derive(Debug, Clone, PartialEq, Eq)]
pub struct RawInsn {
    pub mnemonic: Option<String>,
    pub operands: Option<String>,
}

/// Mathematical model of a [`RawInsn`].
pub struct InsnView {
    pub mnemonic: Option<Seq<char>>,
    pub operands: Option<Seq<char>>,
}

impl View for RawInsn {
    type V = InsnView;

    open spec fn view(&self) -> InsnView {
        InsnView { mnemonic: self.mnemonic.deep_view(), operands: self.operands.deep_view() }
    }
}

impl DeepView for RawInsn {
    type V = InsnView;

    open spec fn deep_view(&self) -> InsnView {
        self.view()
    }
}

/// Why one word gave no instruction line.
#[derive(Debug, Clone, Copy, PartialEq, Eq, Structural)]
pub enum WordError {
    /// The engine reported an error.
    EngineFailure,
    /// The engine decoded an instruction without a mnemonic.
    MissingMnemonic,
    /// The engine decoded nothing, and the word is not all zero.
    Undecodable,
    /// The engine decoded more than the one instruction asked for.
    UnexpectedCount,
}

/// Why a buffer gave no instruction stream.
#[derive(Debug, Clone, Copy, PartialEq, Eq, Structural)]
pub enum DecodeError {
    /// The buffer holds no byte.
    EmptyBuffer,
    /// The length of the buffer is not a multiple of the word size.
    UnalignedBuffer,
    /// The word at `index` gave no line.
    Word { index: usize, cause: WordError },
}

/// Whether every byte of the word is zero.
pub open spec fn all_zero(word: Seq<u8>) -> bool {
    forall|k: int| 0 <= k < word.len() ==> word[k] == 0
}

/// The line that stands for an all-zero word which the engine does not
/// decode.
pub open spec fn zero_word_line() -> Seq<char> {
    "0x00000000"@
}

/// The line for one word, given what the engine made of it: `None` for an
/// error of the engine, else the instructions that it decoded.
///
/// One instruction gives its mnemonic, a space and its operands. No
/// instruction gives the placeholder if the word is all zero.
pub open spec fn word_line(word: Seq<u8>, decoded: Option<Seq<InsnView>>) -> Result<
    Seq<char>,
    WordError,
> {
    match decoded {
        None => Err(WordError::EngineFailure),
        Some(insns) => if insns.len() == 1 {
            match insns[0].mnemonic {
                Some(mnemonic) => Ok(mnemonic + " "@ + cell_text(insns[0].operands)),
                None => Err(WordError::MissingMnemonic),
            }
        } else if insns.len() == 0 {
            if all_zero(word) {
                Ok(zero_word_line())
            } else {
                Err(WordError::Undecodable)
            }
        } else {
            Err(WordError::UnexpectedCount)
        },
    }
}

/// The word with index `k` of the buffer.
pub open spec fn word_at(buffer: Seq<u8>, k: int) -> Seq<u8> {
    buffer.subrange(4 * k, 4 * k + 4)
}

/// The address at which the word with index `k` is decoded: words follow
/// each other in steps of four bytes from `base`, in a 64-bit address
/// space.
pub open spec fn address_of(base: u32, k: usize) -> u64 {
    ((base + 4 * k) % 0x1_0000_0000_0000_0000) as u64
}

/// The lines of the first `n` words, given what the engine made of each:
/// all of them, or the first word that gave none.
pub open spec fn decoded_lines(
    buffer: Seq<u8>,
    outcomes: Seq<Option<Seq<InsnView>>>,
    n: nat,
) -> Result<Seq<Seq<char>>, DecodeError>
    decreases n,
{
    if n == 0 {
        Ok(Seq::empty())
    } else {
        match decoded_lines(buffer, outcomes, (n - 1) as nat) {
            Ok(lines) => match word_line(word_at(buffer, n - 1), outcomes[n - 1]) {
                Ok(line) => Ok(lines.push(line)),
                Err(cause) => Err(DecodeError::Word { index: (n - 1) as usize, cause }),
            },
            Err(e) => Err(e),
        }
    }
}

/// Model of the outcome of a decoding.
pub open spec fn lines_result(res: Result<Vec<String>, DecodeError>) -> Result<
    Seq<Seq<char>>,
    DecodeError,
> {
    match res {
        Ok(lines) => Ok(lines.deep_view()),
        Err(e) => Err(e),
    }
}

/// An all-zero word never counts as undecodable: where the engine decodes
/// nothing, it gives the placeholder.
pub proof fn lemma_zero_word_has_line(word: Seq<u8>, decoded: Option<Seq<InsnView>>)
    requires
        all_zero(word),
    ensures
        word_line(word, decoded) != Err::<Seq<char>, WordError>(WordError::Undecodable),
        word_line(word, Some(Seq::<InsnView>::empty())) == Ok::<Seq<char>, WordError>(
            zero_word_line(),
        ),
{
}

/// Decoding gives one line per word; where it fails, it names a word
/// inside the range, and an undecodable word is never all zero.
pub proof fn lemma_decoded_lines(buffer: Seq<u8>, outcomes: Seq<Option<Seq<InsnView>>>, n: nat)
    requires
        n <= usize::MAX,
    ensures
        match decoded_lines(buffer, outcomes, n) {
            Ok(lines) => lines.len() == n,
            Err(DecodeError::Word { index, cause }) => {
                &&& index < n
                &&& word_line(word_at(buffer, index as int), outcomes[index as int]) == Err::<
                    Seq<char>,
                    WordError,
                >(cause)
                &&& cause == WordError::Undecodable ==> !all_zero(word_at(buffer, index as int))
            },
            Err(_) => false,
        },
    decreases n,
{
    if n > 0 {
        lemma_decoded_lines(buffer, outcomes, (n - 1) as nat);
    }
}

/// The lines of the first `n` words depend on the first `n` outcomes only.
pub proof fn lemma_decoded_lines_prefix(
    buffer: Seq<u8>,
    a: Seq<Option<Seq<InsnView>>>,
    b: Seq<Option<Seq<InsnView>>>,
    n: nat,
)
    requires
        n <= a.len(),
        n <= b.len(),
        forall|k: int| 0 <= k < n ==> a[k] == b[k],
    ensures
        decoded_lines(buffer, a, n) == decoded_lines(buffer, b, n),
    decreases n,
{
    if n > 0 {
        lemma_decoded_lines_prefix(buffer, a, b, (n - 1) as nat);
    }
}

/// `Capstone::disasm_count` with a count of one, at `address`.
///
/// What the engine decodes depends on how it was configured, so nothing
/// is claimed of the result. `None` stands for an error of the engine;
/// otherwise each decoded instruction is handed on with its mnemonic and
/// its operand text, as far as the engine gives them.
#[verifier::external_body]
fn disasm_word(cs: &capstone::Capstone, word: &[u8], address: u64) -> (decoded: Option<
    Vec<RawInsn>,
>) {
    let insns = cs.disasm_count(word, address, 1).ok()?;
    Some(
        insns.iter().map(
            |insn|
                RawInsn {
                    mnemonic: insn.mnemonic().map(|m| m.to_string()),
                    operands: insn.op_str().map(|o| o.to_string()),
                },
        ).collect(),
    )
}

/// Computes the address at which the word with index `k` is decoded.
pub fn word_address(base: u32, k: usize) -> (address: u64)
    ensures
        address == address_of(base, k),
{
    let offset: u64 = (k as u64).wrapping_mul(4);
    (base as u64).wrapping_add(offset)
}

/// Tells whether every byte of the word is zero.
pub fn is_zero_word(word: &[u8]) -> (zero: bool)
    ensures
        zero == all_zero(word@),
{
    let mut k: usize = 0;
    while k < word.len()
        invariant
            k <= word.len(),
            forall|m: int| 0 <= m < k ==> word@[m] == 0,
        decreases word.len() - k,
    {
        if word[k] != 0 {
            return false;
        }
        k = k + 1;
    }
    true
}

/// Decides the line for one word from what the engine made of it.
pub fn instruction_line(word: &[u8], decoded: &Option<Vec<RawInsn>>) -> (res: Result<
    String,
    WordError,
>)
    ensures
        match res {
            Ok(line) => word_line(word@, decoded.deep_view()) == Ok::<Seq<char>, WordError>(
                line@,
            ),
            Err(cause) => word_line(word@, decoded.deep_view()) == Err::<Seq<char>, WordError>(
                cause,
            ),
        },
{
    match decoded {
        None => Err(WordError::EngineFailure),
        Some(insns) => {
            if insns.len() == 1 {
                match &insns[0].mnemonic {
                    Some(mnemonic) => {
                        let mut line = mnemonic.clone();
                        line.append(" ");
                        match &insns[0].operands {
                            Some(operands) => {
                                line.append(operands.as_str());
                            },
                            None => {
                                assert(line@ + Seq::<char>::empty() =~= line@);
                            },
                        }
                        Ok(line)
                    },
                    None => Err(WordError::MissingMnemonic),
                }
            } else if insns.len() == 0 {
                if is_zero_word(word) {
                    Ok("0x00000000".to_owned())
                } else {
                    Err(WordError::Undecodable)
                }
            } else {
                Err(WordError::UnexpectedCount)
            }
        },
    }
}

/// Decodes a buffer into instruction lines, one per word of four bytes,
/// the first word at address `base`.
///
/// An empty buffer, and one whose length is no multiple of four, are
/// refused. Else each word is handed to the engine, and the result is that
/// of [`decoded_lines`] for what the engine made of the words: one line
/// per word, or the first word that gave none. A word of zeros is never
/// reported as undecodable.
pub fn disassemble(cs: &capstone::Capstone, buffer: &[u8], base: u32) -> (res: Result<
    Vec<String>,
    DecodeError,
>)
    ensures
        buffer@.len() == 0 <==> res == Err::<Vec<String>, DecodeError>(DecodeError::EmptyBuffer),
        buffer@.len() % 4 != 0 <==> res == Err::<Vec<String>, DecodeError>(
            DecodeError::UnalignedBuffer,
        ),
        buffer@.len() > 0 && buffer@.len() % 4 == 0 ==> exists|
            outcomes: Seq<Option<Seq<InsnView>>>,
        |
            {
                &&& outcomes.len() <= buffer@.len() / 4
                &&& res is Ok ==> outcomes.len() == buffer@.len() / 4
                &&& lines_result(res) == #[trigger] decoded_lines(
                    buffer@,
                    outcomes,
                    outcomes.len(),
                )
            },
        res matches Ok(lines) ==> lines.len() == buffer@.len() / 4,
        res matches Err(DecodeError::Word { index, cause }) ==> index < buffer@.len() / 4 && (cause
            == WordError::Undecodable ==> !all_zero(word_at(buffer@, index as int))),
{
    if buffer.len() == 0 {
        return Err(DecodeError::EmptyBuffer);
    }
    if buffer.len() % 4 != 0 {
        return Err(DecodeError::UnalignedBuffer);
    }
    let n: usize = buffer.len() / 4;
    let mut lines: Vec<String> = Vec::new();
    let ghost mut outcomes: Seq<Option<Seq<InsnView>>> = Seq::empty();
    let mut k: usize = 0;
    assert(lines.deep_view() =~= Seq::<Seq<char>>::empty());
    while k < n
        invariant
            k <= n,
            n == buffer@.len() / 4,
            buffer@.len() % 4 == 0,
            buffer@.len() <= usize::MAX,
            outcomes.len() == k,
            lines.len() == k,
            decoded_lines(buffer@, outcomes, k as nat) == Ok::<Seq<Seq<char>>, DecodeError>(
                lines.deep_view(),
            ),
        decreases n - k,
    {
        let word = slice_subrange(buffer, 4 * k, 4 * k + 4);
        let decoded = disasm_word(cs, word, word_address(base, k));
        let ghost before = outcomes;
        let ghost lines_before = lines.deep_view();
        proof {
            outcomes = before.push(decoded.deep_view());
            lemma_decoded_lines_prefix(buffer@, before, outcomes, k as nat);
            lemma_decoded_lines(buffer@, outcomes, (k + 1) as nat);
        }
        match instruction_line(word, &decoded) {
            Ok(line) => {
                lines.push(line);
                assert(lines.deep_view() =~= lines_before.push(line@));
            },
            Err(cause) => {
                return Err(DecodeError::Word { index: k, cause });
            },
        }
        k = k + 1;
    }
    Ok(lines)
}

} // verus!
