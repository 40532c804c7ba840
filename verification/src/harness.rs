//! The fuzz-harness core: synthetic identity and address pools, a
//! mathematical replay of decoded instruction sequences, and the
//! executable runner that replays one entropy buffer against a fresh
//! ledger snapshot and checks the store's invariants after every step.

use vstd::prelude::*;

use crate::decoder::decode;
use crate::decoder::decode_spec;
use crate::decoder::instructions_view;
use crate::decoder::Instruction;
use crate::decoder::InstructionView;
use crate::state::create_message;
use crate::state::create_next;
use crate::state::create_result;
use crate::state::initialize;
use crate::state::CreateMessage;
use crate::state::Initialize;
use crate::state::Ledger;
use crate::state::MessageError;
use crate::state::MessageView;
use crate::state::Pubkey;

verus! {

/// Number of synthetic identities the harness can pick an author from.
pub const IDENTITY_POOL_SIZE: u8 = 8;

/// How many of the synthetic identities sign the replayed transaction;
/// the rest exercise the signer check.
pub const SIGNER_COUNT: u8 = 4;

/// Number of synthetic addresses the harness can create accounts at.
pub const ADDRESS_POOL_SIZE: u8 = 8;

/// The synthetic identity with the given pool index.
pub open spec fn pool_identity_spec(i: u8) -> Pubkey {
    Pubkey { w0: (1 + i as u64) as u64, w1: 0, w2: 0, w3: 0 }
}

/// The synthetic account address with the given pool index.
pub open spec fn pool_address_spec(i: u8) -> Pubkey {
    Pubkey { w0: (1 + i as u64) as u64, w1: 1, w2: 0, w3: 0 }
}

/// The well-known address of the system allocator program.
pub open spec fn system_program_id_spec() -> Pubkey {
    Pubkey { w0: 0, w1: 0, w2: 0, w3: 1 }
}

/// The signer set of every replayed transaction: the first
/// `SIGNER_COUNT` identities of the pool.
pub open spec fn active_signers() -> Seq<Pubkey> {
    Seq::new(SIGNER_COUNT as nat, |i: int| pool_identity_spec(i as u8))
}

/// Builds the synthetic identity with the given pool index.
pub fn pool_identity(i: u8) -> (p: Pubkey)
    ensures
        p == pool_identity_spec(i),
{
    Pubkey { w0: 1 + i as u64, w1: 0, w2: 0, w3: 0 }
}

/// Builds the synthetic account address with the given pool index.
pub fn pool_address(i: u8) -> (p: Pubkey)
    ensures
        p == pool_address_spec(i),
{
    Pubkey { w0: 1 + i as u64, w1: 1, w2: 0, w3: 0 }
}

/// Builds the well-known system allocator address.
pub fn system_program_id() -> (p: Pubkey)
    ensures
        p == system_program_id_spec(),
{
    Pubkey { w0: 0, w1: 0, w2: 0, w3: 1 }
}

/// Builds the signer set of a replayed transaction.
pub fn make_signers() -> (v: Vec<Pubkey>)
    ensures
        v@ == active_signers(),
{
    let mut v: Vec<Pubkey> = Vec::new();
    let mut i: u8 = 0;
    while i < SIGNER_COUNT
        invariant
            0 <= i <= SIGNER_COUNT,
            v@.len() == i as nat,
            forall|j: int| 0 <= j < i ==> v@[j] == pool_identity_spec(j as u8),
        decreases SIGNER_COUNT - i,
    {
        v.push(pool_identity(i));
        i += 1;
    }
    proof {
        assert(v@ =~= active_signers());
    }
    v
}

/// How the given instruction resolves the author identity of a
/// creation, from the choice byte, by modulo into the identity pool.
pub open spec fn chosen_author(author_choice: u8) -> Pubkey {
    pool_identity_spec((author_choice % IDENTITY_POOL_SIZE) as u8)
}

/// How the given instruction resolves the target address of a
/// creation, from the choice byte, by modulo into the address pool.
pub open spec fn chosen_address(address_choice: u8) -> Pubkey {
    pool_address_spec((address_choice % ADDRESS_POOL_SIZE) as u8)
}

/// Outcome of replaying one instruction on a ledger state.
pub open spec fn instruction_result(
    state: Map<Pubkey, MessageView>,
    ins: InstructionView,
) -> Result<(), MessageError> {
    match ins {
        InstructionView::Initialize => Ok(()),
        InstructionView::CreateMessage { author_choice, address_choice, content } => create_result(
            state,
            active_signers(),
            chosen_author(author_choice),
            chosen_address(address_choice),
            content,
        ),
    }
}

/// The ledger state after replaying one instruction.
pub open spec fn instruction_next(
    state: Map<Pubkey, MessageView>,
    ins: InstructionView,
) -> Map<Pubkey, MessageView> {
    match ins {
        InstructionView::Initialize => state,
        InstructionView::CreateMessage { author_choice, address_choice, content } => create_next(
            state,
            active_signers(),
            chosen_author(author_choice),
            chosen_address(address_choice),
            content,
        ),
    }
}

/// The ledger state after replaying the instructions from position `i`
/// on, stopping at the first failed operation.
pub open spec fn run_from(
    state: Map<Pubkey, MessageView>,
    instrs: Seq<InstructionView>,
    i: int,
) -> Map<Pubkey, MessageView>
    decreases instrs.len() - i,
{
    if i < 0 || i >= instrs.len() {
        state
    } else if instruction_result(state, instrs[i]) is Err {
        state
    } else {
        run_from(instruction_next(state, instrs[i]), instrs, i + 1)
    }
}

/// The ledger state after replaying a whole instruction sequence,
/// stopping at the first failed operation.
pub open spec fn run_seq(
    state: Map<Pubkey, MessageView>,
    instrs: Seq<InstructionView>,
) -> Map<Pubkey, MessageView> {
    run_from(state, instrs, 0)
}

/// How many operations of the replay succeed, counted from position
/// `i` and stopping at the first failure.
pub open spec fn ok_count_from(
    state: Map<Pubkey, MessageView>,
    instrs: Seq<InstructionView>,
    i: int,
) -> int
    decreases instrs.len() - i,
{
    if i < 0 || i >= instrs.len() {
        0
    } else if instruction_result(state, instrs[i]) is Err {
        0
    } else {
        1 + ok_count_from(instruction_next(state, instrs[i]), instrs, i + 1)
    }
}

/// The ledger a fresh replay of `data` ends in: decode the buffer,
/// start from an empty snapshot, replay until the first failure.
pub open spec fn harness_outcome(data: Seq<u8>) -> Map<Pubkey, MessageView> {
    run_seq(Map::empty(), decode_spec(data))
}

/// Signer gating at the instruction level: a creation whose choice
/// byte selects an identity outside the signing part of the pool is
/// rejected as unauthorized and leaves the ledger state unchanged.
pub proof fn lemma_unsigned_author_rejected(
    state: Map<Pubkey, MessageView>,
    author_choice: u8,
    address_choice: u8,
    content: Seq<u8>,
)
    requires
        author_choice % IDENTITY_POOL_SIZE >= SIGNER_COUNT,
    ensures
        instruction_result(
            state,
            InstructionView::CreateMessage { author_choice, address_choice, content },
        ) == Err::<(), MessageError>(MessageError::UnauthorizedSigner),
        instruction_next(
            state,
            InstructionView::CreateMessage { author_choice, address_choice, content },
        ) == state,
{
    let author = chosen_author(author_choice);
    assert forall|k: int| 0 <= k < active_signers().len() implies active_signers()[k] != author by {
        assert(active_signers()[k] == pool_identity_spec(k as u8));
    }
    assert(!active_signers().contains(author));
    crate::state::lemma_signer_gating(
        state,
        active_signers(),
        author,
        chosen_address(address_choice),
        content,
    );
}

/// What the harness remembers about one successful creation, in order
/// to re-check the store against it after every later step.
#[derive(Clone, Debug)]
pub struct CreationRecord {
    pub address: Pubkey,
    pub author: Pubkey,
    pub content: Vec<u8>,
}

/// The ledger agrees with every recorded creation: each created
/// account still exists, with exactly the author and content written
/// at its creation.
pub open spec fn records_consistent(
    state: Map<Pubkey, MessageView>,
    log: Seq<CreationRecord>,
) -> bool {
    forall|i: int|
        0 <= i < log.len() ==> state.contains_key(#[trigger] log[i].address) && state[log[i].address]
            == (MessageView { author: log[i].author, content: log[i].content@ })
}

/// Byte-for-byte equality of two buffers.
fn bytes_eq(a: &Vec<u8>, b: &Vec<u8>) -> (r: bool)
    ensures
        r == (a@ == b@),
{
    if a.len() != b.len() {
        return false;
    }
    let n = a.len();
    let mut i: usize = 0;
    while i < n
        invariant
            n == a@.len(),
            n == b@.len(),
            0 <= i <= n,
            forall|j: int| 0 <= j < i ==> a@[j] == b@[j],
        decreases n - i,
    {
        if a[i] != b[i] {
            return false;
        }
        i += 1;
    }
    proof {
        assert(a@ =~= b@);
    }
    true
}

/// An owned copy of a byte buffer.
fn copy_bytes(v: &Vec<u8>) -> (r: Vec<u8>)
    ensures
        r@ == v@,
{
    let n = v.len();
    let mut r: Vec<u8> = Vec::new();
    let mut i: usize = 0;
    while i < n
        invariant
            n == v@.len(),
            0 <= i <= n,
            r@ == v@.subrange(0, i as int),
        decreases n - i,
    {
        r.push(v[i]);
        proof {
            assert(r@ =~= v@.subrange(0, i as int + 1));
        }
        i += 1;
    }
    proof {
        assert(r@ =~= v@);
    }
    r
}

/// The harness's post-step check: every recorded creation must still
/// be readable from the snapshot with exactly the recorded author and
/// content.
pub fn check_invariants(ledger: &Ledger, log: &Vec<CreationRecord>) -> (ok: bool)
    requires
        ledger.wf(),
    ensures
        ok == records_consistent(ledger@, log@),
{
    let n = log.len();
    let mut i: usize = 0;
    while i < n
        invariant
            ledger.wf(),
            n == log@.len(),
            0 <= i <= n,
            forall|j: int|
                0 <= j < i ==> ledger@.contains_key(#[trigger] log@[j].address)
                    && ledger@[log@[j].address] == (MessageView {
                    author: log@[j].author,
                    content: log@[j].content@,
                }),
        decreases n - i,
    {
        let rec = &log[i];
        match ledger.get_message(&rec.address) {
            None => {
                return false;
            },
            Some(msg) => {
                if msg.author != rec.author {
                    return false;
                }
                if !bytes_eq(&msg.content, &rec.content) {
                    return false;
                }
            },
        }
        i += 1;
    }
    true
}

/// Which post-condition check of the harness failed.
#[derive(Clone, Copy, PartialEq, Eq, Structural, Debug)]
pub enum ViolationKind {
    /// The store no longer agrees with a creation it had reported
    /// successful.
    RecordMismatch,
    /// An account of the store exceeds its fixed capacity.
    CapacityOverrun,
}

/// A harness-level failure report: the invariant that broke and the
/// byte buffer that reproduces the failing iteration.
pub struct Violation {
    pub kind: ViolationKind,
    pub reproducer: Vec<u8>,
}

/// The report of one fuzz iteration.
pub struct CaseReport {
    /// The snapshot the replay ended in.
    pub ledger: Ledger,
    /// How many instructions the buffer decoded to.
    pub instructions: usize,
    /// How many operations succeeded before the replay stopped.
    pub operations_ok: usize,
    /// The failure report, when a post-step check found the store in a
    /// state that contradicts an earlier successful operation.
    pub violation: Option<Violation>,
}

/// Replays one entropy buffer: decodes it, executes the instructions
/// in order against a fresh snapshot, stops at the first failed
/// operation, and re-checks the store's invariants after every
/// successful one.
///
/// The report carries no violation: the store provably never
/// contradicts a recorded creation.
pub fn run_case(data: &Vec<u8>) -> (report: CaseReport)
    ensures
        report.ledger.wf(),
        report.ledger@ == harness_outcome(data@),
        report.instructions == decode_spec(data@).len(),
        report.operations_ok == ok_count_from(Map::empty(), decode_spec(data@), 0),
        report.violation is None,
{
    let ghost d = decode_spec(data@);
    let instrs = decode(data);
    let signers = make_signers();
    let mut ledger = Ledger::new();
    let mut log: Vec<CreationRecord> = Vec::new();
    let mut ok_ops: usize = 0;
    let mut halted = false;
    let mut violated = false;
    let n = instrs.len();
    let mut i: usize = 0;
    while i < n && !halted
        invariant
            ledger.wf(),
            n == instrs@.len(),
            instructions_view(instrs@) == d,
            d == decode_spec(data@),
            signers@ == active_signers(),
            0 <= i <= n,
            ok_ops <= i,
            !violated,
            records_consistent(ledger@, log@),
            !halted ==> harness_outcome(data@) == run_from(ledger@, d, i as int),
            !halted ==> ok_count_from(Map::empty(), d, 0) == ok_ops + ok_count_from(
                ledger@,
                d,
                i as int,
            ),
            halted ==> harness_outcome(data@) == ledger@,
            halted ==> ok_count_from(Map::empty(), d, 0) == ok_ops,
        decreases n - i,
    {
        proof {
            assert(d[i as int] == instrs@[i as int]@);
        }
        let ghost pre_state = ledger@;
        match &instrs[i] {
            Instruction::Initialize => {
                let r = initialize(&Initialize {});
                match r {
                    Ok(()) => {
                        ok_ops += 1;
                    },
                    Err(_) => {
                        halted = true;
                    },
                }
            },
            Instruction::CreateMessage { author_choice, address_choice, content } => {
                let author = pool_identity(*author_choice % IDENTITY_POOL_SIZE);
                let address = pool_address(*address_choice % ADDRESS_POOL_SIZE);
                let ctx = CreateMessage {
                    message: address,
                    author,
                    system_program: system_program_id(),
                };
                let content_copy = copy_bytes(content);
                let r = create_message(&mut ledger, &ctx, &signers, content_copy);
                match r {
                    Ok(()) => {
                        proof {
                            assert forall|j: int|
                                0 <= j < log@.len() implies ledger@.contains_key(
                                #[trigger] log@[j].address,
                            ) && ledger@[log@[j].address] == (MessageView {
                                author: log@[j].author,
                                content: log@[j].content@,
                            }) by {
                                assert(pre_state.contains_key(log@[j].address));
                                assert(!pre_state.contains_key(ctx.message));
                            }
                        }
                        log.push(
                            CreationRecord {
                                address,
                                author,
                                content: copy_bytes(content),
                            },
                        );
                        ok_ops += 1;
                        if !check_invariants(&ledger, &log) {
                            violated = true;
                        }
                    },
                    Err(_) => {
                        halted = true;
                    },
                }
            },
        }
        i += 1;
    }
    proof {
        lemma_harness_capacity_invariant(data@);
    }
    let records_ok = check_invariants(&ledger, &log);
    let capacity_ok = ledger.contents_within_capacity();
    let violation = if violated || !records_ok {
        Some(Violation { kind: ViolationKind::RecordMismatch, reproducer: copy_bytes(data) })
    } else if !capacity_ok {
        Some(Violation { kind: ViolationKind::CapacityOverrun, reproducer: copy_bytes(data) })
    } else {
        None
    };
    CaseReport { ledger, instructions: n, operations_ok: ok_ops, violation }
}

/// The global capacity invariant: every account of a state stores at
/// most `MAX_CONTENT_LEN` content bytes.
pub open spec fn capacities_ok(state: Map<Pubkey, MessageView>) -> bool {
    forall|a: Pubkey|
        state.contains_key(a) ==> #[trigger] state[a].content.len()
            <= crate::state::MAX_CONTENT_LEN
}

/// Replaying instructions preserves the capacity invariant: a creation
/// only succeeds with content within the capacity, and nothing else
/// writes to the store.
pub proof fn lemma_run_preserves_capacities(
    state: Map<Pubkey, MessageView>,
    instrs: Seq<InstructionView>,
    i: int,
)
    requires
        capacities_ok(state),
    ensures
        capacities_ok(run_from(state, instrs, i)),
    decreases instrs.len() - i,
{
    if 0 <= i < instrs.len() && !(instruction_result(state, instrs[i]) is Err) {
        let next = instruction_next(state, instrs[i]);
        assert(capacities_ok(next));
        lemma_run_preserves_capacities(next, instrs, i + 1);
    }
}

/// Capacity invariant over a whole replay: whatever buffer drives the
/// harness, no account of the resulting snapshot ever stores more than
/// `MAX_CONTENT_LEN` content bytes.
pub proof fn lemma_harness_capacity_invariant(data: Seq<u8>)
    ensures
        capacities_ok(harness_outcome(data)),
{
    lemma_run_preserves_capacities(Map::empty(), decode_spec(data), 0);
}

/// Author immutability, and more: once an account exists on the
/// ledger, no replayed instruction sequence can change or remove its
/// record, so in particular its author stays the identity supplied at
/// its creation.
pub proof fn lemma_account_immutable(
    state: Map<Pubkey, MessageView>,
    instrs: Seq<InstructionView>,
    i: int,
    a: Pubkey,
)
    requires
        state.contains_key(a),
    ensures
        run_from(state, instrs, i).contains_key(a),
        run_from(state, instrs, i)[a] == state[a],
    decreases instrs.len() - i,
{
    if 0 <= i < instrs.len() && !(instruction_result(state, instrs[i]) is Err) {
        let next = instruction_next(state, instrs[i]);
        assert(next.contains_key(a) && next[a] == state[a]);
        lemma_account_immutable(next, instrs, i + 1, a);
    }
}

/// Author immutability over a whole replay: the author of an existing
/// account equals the author it was created with, whatever instruction
/// sequence runs afterwards.
pub proof fn lemma_author_immutable(
    state: Map<Pubkey, MessageView>,
    instrs: Seq<InstructionView>,
    a: Pubkey,
)
    requires
        state.contains_key(a),
    ensures
        run_seq(state, instrs).contains_key(a),
        run_seq(state, instrs)[a].author == state[a].author,
{
    lemma_account_immutable(state, instrs, 0, a);
}

} // verus!
