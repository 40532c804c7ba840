//! Total decoding of raw entropy bytes into instruction sequences.
//!
//! Any byte buffer, including an empty or truncated one, decodes to
//! some finite instruction sequence: missing fields default to zero and
//! over-long fields are truncated at the end of the buffer, so decoding
//! never fails.
//!
//! The encoding reads the buffer left to right.  An even byte selects
//! the null instruction and consumes one byte.  An odd byte selects a
//! creation instruction and is followed by an author choice byte, an
//! address choice byte, a content length byte, and that many content
//! bytes.

use vstd::prelude::*;

verus! {

/// One decoded instruction of the fuzz harness.
#[derive(Clone, Debug)]
pub enum Instruction {
    /// Run the null operation.
    Initialize,
    /// Create a message account.  The choice bytes select an author
    /// identity and a target address from the harness's synthetic
    /// pools.
    CreateMessage { author_choice: u8, address_choice: u8, content: Vec<u8> },
}

/// Mathematical value of an `Instruction`.
#[verifier::ext_equal]
pub enum InstructionView {
    Initialize,
    CreateMessage { author_choice: u8, address_choice: u8, content: Seq<u8> },
}

impl View for Instruction {
    type V = InstructionView;

    open spec fn view(&self) -> InstructionView {
        match self {
            Instruction::Initialize => InstructionView::Initialize,
            Instruction::CreateMessage { author_choice, address_choice, content } =>
                InstructionView::CreateMessage {
                    author_choice: *author_choice,
                    address_choice: *address_choice,
                    content: content@,
                },
        }
    }
}

/// The values of a sequence of decoded instructions.
pub open spec fn instructions_view(s: Seq<Instruction>) -> Seq<InstructionView> {
    s.map(|_i: int, ins: Instruction| ins@)
}

/// The instruction sequence decoded from `data` starting at position
/// `i`.  Every position consumes at least one byte, so the sequence is
/// finite for every buffer.
pub open spec fn decode_from(data: Seq<u8>, i: int) -> Seq<InstructionView>
    decreases data.len() - i,
{
    let n = data.len() as int;
    if i < 0 || i >= n {
        Seq::empty()
    } else if data[i] % 2 == 0 {
        seq![InstructionView::Initialize] + decode_from(data, i + 1)
    } else {
        let author_choice = if i + 1 < n { data[i + 1] } else { 0 };
        let address_choice = if i + 2 < n { data[i + 2] } else { 0 };
        let l = if i + 3 < n { data[i + 3] as int } else { 0 };
        let start = if i + 4 <= n { i + 4 } else { n };
        let end = if i + 4 + l <= n { i + 4 + l } else { n };
        seq![
            InstructionView::CreateMessage {
                author_choice,
                address_choice,
                content: data.subrange(start, end),
            }
        ] + decode_from(data, end)
    }
}

/// The instruction sequence decoded from a whole buffer.
pub open spec fn decode_spec(data: Seq<u8>) -> Seq<InstructionView> {
    decode_from(data, 0)
}

/// Decoding from any position is bounded by the bytes that remain.
pub proof fn lemma_decode_from_len(data: Seq<u8>, i: int)
    ensures
        decode_from(data, i).len() <= data.len() - i || decode_from(data, i).len() == 0,
    decreases data.len() - i,
{
    let n = data.len() as int;
    if 0 <= i < n {
        if data[i] % 2 == 0 {
            lemma_decode_from_len(data, i + 1);
        } else {
            let l = if i + 3 < n { data[i + 3] as int } else { 0 };
            let end = if i + 4 + l <= n { i + 4 + l } else { n };
            lemma_decode_from_len(data, end);
        }
    }
}

/// Total decoding is bounded: every buffer decodes to a finite
/// instruction sequence of at most one instruction per input byte.
pub proof fn lemma_decode_total_bound(data: Seq<u8>)
    ensures
        decode_spec(data).len() <= data.len(),
{
    lemma_decode_from_len(data, 0);
}

/// Decodes a whole entropy buffer into its instruction sequence.
///
/// Decoding is total: it accepts every buffer and returns at most one
/// instruction per input byte.
pub fn decode(data: &Vec<u8>) -> (r: Vec<Instruction>)
    ensures
        instructions_view(r@) == decode_spec(data@),
        r@.len() <= data@.len(),
{
    let n = data.len();
    let mut out: Vec<Instruction> = Vec::new();
    let mut i: usize = 0;
    proof {
        assert(instructions_view(out@) + decode_from(data@, 0) =~= decode_spec(data@));
    }
    while i < n
        invariant
            n == data@.len(),
            0 <= i <= n,
            out@.len() <= i,
            instructions_view(out@) + decode_from(data@, i as int) == decode_spec(data@),
        decreases n - i,
    {
        let ghost prev_out = out@;
        let ghost prev_i = i as int;
        if data[i] % 2 == 0 {
            out.push(Instruction::Initialize);
            i += 1;
        } else {
            let avail = n - i;
            let author_choice = if avail > 1 { data[i + 1] } else { 0 };
            let address_choice = if avail > 2 { data[i + 2] } else { 0 };
            let l: usize = if avail > 3 { data[i + 3] as usize } else { 0 };
            let skip: usize = if avail < 4 { avail } else { 4 };
            let body_avail = avail - skip;
            let take: usize = if l < body_avail { l } else { body_avail };
            let start = i + skip;
            let mut content: Vec<u8> = Vec::new();
            let mut k: usize = 0;
            while k < take
                invariant
                    n == data@.len(),
                    0 <= k <= take,
                    start + take <= n,
                    content@ == data@.subrange(start as int, start as int + k as int),
                decreases take - k,
            {
                content.push(data[start + k]);
                proof {
                    assert(content@ =~= data@.subrange(start as int, start as int + k as int + 1));
                }
                k += 1;
            }
            proof {
                let ni = data@.len() as int;
                let spec_l = if prev_i + 3 < ni { data@[prev_i + 3] as int } else { 0 };
                let spec_start = if prev_i + 4 <= ni { prev_i + 4 } else { ni };
                let spec_end = if prev_i + 4 + spec_l <= ni { prev_i + 4 + spec_l } else { ni };
                assert(spec_start == start as int);
                assert(spec_end == start as int + take as int);
            }
            out.push(Instruction::CreateMessage { author_choice, address_choice, content });
            i = start + take;
        }
        proof {
            assert(out@ == prev_out.push(out@.last()));
            assert(instructions_view(out@) =~= instructions_view(prev_out).push(out@.last()@));
            assert(decode_from(data@, prev_i) =~= seq![out@.last()@] + decode_from(
                data@,
                i as int,
            ));
            assert(instructions_view(prev_out) + decode_from(data@, prev_i) =~= instructions_view(
                out@,
            ) + decode_from(data@, i as int));
        }
    }
    out
}

} // verus!
