//! The state machine: message accounts, the ledger snapshot, and the two
//! public operations `initialize` and `create_message`.

use vstd::prelude::*;

verus! {

/// Number of bytes reserved for the account type discriminator.
pub const DISCRIMINATOR_LEN: usize = 8;

/// Number of bytes of a public-key identity.
pub const IDENTITY_LEN: usize = 32;

/// Number of bytes of the little-endian length prefix of the content field.
pub const LEN_PREFIX_LEN: usize = 4;

/// Total capacity, in bytes, allocated for one message account.
pub const ACCOUNT_CAPACITY: usize = 240;

/// Largest content length, in bytes, that fits in a message account.
pub const MAX_CONTENT_LEN: usize = 192;

/// A 32-byte public-key identity, held as four 64-bit words.
#[derive(Clone, Copy, PartialEq, Eq, Structural, Debug)]
pub struct Pubkey {
    pub w0: u64,
    pub w1: u64,
    pub w2: u64,
    pub w3: u64,
}

/// A message record: an author identity, fixed at creation, and the
/// message text as UTF-8 bytes.
#[derive(Clone, Debug)]
pub struct Message {
    pub author: Pubkey,
    pub content: Vec<u8>,
}

/// Mathematical value of a `Message`.
#[verifier::ext_equal]
pub struct MessageView {
    pub author: Pubkey,
    pub content: Seq<u8>,
}

impl View for Message {
    type V = MessageView;

    open spec fn view(&self) -> MessageView {
        MessageView { author: self.author, content: self.content@ }
    }
}

/// The typed failures of `create_message`; all of them are recoverable
/// and expected under fuzzing.
#[derive(Clone, Copy, PartialEq, Eq, Structural, Debug)]
pub enum MessageError {
    /// The designated author did not co-sign the transaction.
    UnauthorizedSigner,
    /// The target address already holds a message account.
    AlreadyInitialized,
    /// The content exceeds the fixed storage budget.
    CapacityExceeded,
}

/// The capacity of one account covers the discriminator, the identity,
/// the length prefix and the largest admitted content.
pub proof fn lemma_capacity_layout()
    ensures
        DISCRIMINATOR_LEN + IDENTITY_LEN + LEN_PREFIX_LEN + MAX_CONTENT_LEN <= ACCOUNT_CAPACITY,
{
}

/// One initialized account of the ledger: an address and the record
/// stored under it.
#[derive(Clone, Debug)]
pub struct AccountEntry {
    pub address: Pubkey,
    pub message: Message,
}

/// An in-memory ledger snapshot: the initialized message accounts,
/// keyed by address.  A fresh snapshot holds no accounts.
#[derive(Debug)]
pub struct Ledger {
    entries: Vec<AccountEntry>,
}

/// The map described by a sequence of account entries; a later entry
/// for an address would win, though a well-formed ledger has no
/// duplicate addresses.
pub open spec fn entries_as_map(s: Seq<AccountEntry>) -> Map<Pubkey, MessageView>
    decreases s.len(),
{
    if s.len() == 0 {
        Map::empty()
    } else {
        entries_as_map(s.drop_last()).insert(s.last().address, s.last().message@)
    }
}

/// An address is in the map of a sequence of entries exactly when some
/// entry carries it.
pub proof fn lemma_entries_as_map_domain(s: Seq<AccountEntry>, a: Pubkey)
    ensures
        entries_as_map(s).contains_key(a) <==> exists|i: int| 0 <= i < s.len() && s[i].address == a,
    decreases s.len(),
{
    if s.len() > 0 {
        lemma_entries_as_map_domain(s.drop_last(), a);
        if s.last().address == a {
            assert(s[s.len() - 1].address == a);
        } else if entries_as_map(s).contains_key(a) {
            let i = choose|i: int| 0 <= i < s.drop_last().len() && s.drop_last()[i].address == a;
            assert(s[i].address == a);
        } else if exists|i: int| 0 <= i < s.len() && s[i].address == a {
            let i = choose|i: int| 0 <= i < s.len() && s[i].address == a;
            assert(s.drop_last()[i].address == a);
        }
    }
}

/// In a sequence of entries with pairwise distinct addresses, the map
/// stores each entry's record under its address.
pub proof fn lemma_entries_as_map_index(s: Seq<AccountEntry>, i: int)
    requires
        forall|j: int, k: int| 0 <= j < k < s.len() ==> s[j].address != s[k].address,
        0 <= i < s.len(),
    ensures
        entries_as_map(s).contains_key(s[i].address),
        entries_as_map(s)[s[i].address] == s[i].message@,
    decreases s.len(),
{
    if i == s.len() - 1 {
    } else {
        lemma_entries_as_map_index(s.drop_last(), i);
        assert(s.drop_last()[i] == s[i]);
    }
}

impl Ledger {
    /// Well-formedness: no two entries share an address.
    pub closed spec fn wf(&self) -> bool {
        forall|j: int, k: int|
            0 <= j < k < self.entries@.len() ==> self.entries@[j].address != self.entries@[k].address
    }

    /// A fresh snapshot with no accounts.
    pub fn new() -> (l: Ledger)
        ensures
            l.wf(),
            l@ == Map::<Pubkey, MessageView>::empty(),
    {
        Ledger { entries: Vec::new() }
    }

    /// Whether an account is already initialized at `address`.
    pub fn contains_address(&self, address: &Pubkey) -> (b: bool)
        ensures
            b == self@.contains_key(*address),
    {
        let n = self.entries.len();
        let mut i: usize = 0;
        while i < n
            invariant
                n == self.entries@.len(),
                0 <= i <= n,
                forall|j: int| 0 <= j < i ==> self.entries@[j].address != *address,
            decreases n - i,
        {
            if self.entries[i].address == *address {
                proof {
                    lemma_entries_as_map_domain(self.entries@, *address);
                }
                return true;
            }
            i += 1;
        }
        proof {
            lemma_entries_as_map_domain(self.entries@, *address);
        }
        false
    }

    /// The record stored at `address`, if any.
    pub fn get_message(&self, address: &Pubkey) -> (m: Option<&Message>)
        requires
            self.wf(),
        ensures
            match m {
                Some(msg) => self@.contains_key(*address) && msg@ == self@[*address],
                None => !self@.contains_key(*address),
            },
    {
        let n = self.entries.len();
        let mut i: usize = 0;
        while i < n
            invariant
                self.wf(),
                n == self.entries@.len(),
                0 <= i <= n,
                forall|j: int| 0 <= j < i ==> self.entries@[j].address != *address,
            decreases n - i,
        {
            if self.entries[i].address == *address {
                proof {
                    lemma_entries_as_map_index(self.entries@, i as int);
                }
                return Some(&self.entries[i].message);
            }
            i += 1;
        }
        proof {
            lemma_entries_as_map_domain(self.entries@, *address);
        }
        None
    }

    /// Whether every stored record respects the fixed capacity.
    pub fn contents_within_capacity(&self) -> (b: bool)
        requires
            self.wf(),
        ensures
            b == forall|a: Pubkey|
                self@.contains_key(a) ==> #[trigger] self@[a].content.len() <= MAX_CONTENT_LEN,
    {
        let n = self.entries.len();
        let mut i: usize = 0;
        while i < n
            invariant
                self.wf(),
                n == self.entries@.len(),
                0 <= i <= n,
                forall|j: int|
                    0 <= j < i ==> #[trigger] self.entries@[j].message.content@.len()
                        <= MAX_CONTENT_LEN,
            decreases n - i,
        {
            if self.entries[i].message.content.len() > MAX_CONTENT_LEN {
                proof {
                    lemma_entries_as_map_index(self.entries@, i as int);
                    let a = self.entries@[i as int].address;
                    assert(self@.contains_key(a) && self@[a].content.len() > MAX_CONTENT_LEN);
                }
                return false;
            }
            i += 1;
        }
        proof {
            assert forall|a: Pubkey| self@.contains_key(a) implies #[trigger] self@[a].content.len()
                <= MAX_CONTENT_LEN by {
                lemma_entries_as_map_domain(self.entries@, a);
                let j = choose|j: int| 0 <= j < self.entries@.len() && self.entries@[j].address == a;
                lemma_entries_as_map_index(self.entries@, j);
            }
        }
        true
    }

    /// How many accounts the snapshot holds.
    pub fn account_count(&self) -> (n: usize)
        requires
            self.wf(),
        ensures
            n == self@.dom().len(),
    {
        proof {
            lemma_entries_as_map_len(self.entries@);
        }
        self.entries.len()
    }
}

impl View for Ledger {
    type V = Map<Pubkey, MessageView>;

    closed spec fn view(&self) -> Map<Pubkey, MessageView> {
        entries_as_map(self.entries@)
    }
}

/// The account bundle of the `initialize` operation: it involves no
/// accounts at all.
pub struct Initialize {}

/// The account bundle of the `create_message` operation.
#[derive(Clone, Copy, Debug)]
pub struct CreateMessage {
    /// Address of the account to create; the caller must have allocated
    /// `ACCOUNT_CAPACITY` bytes there.
    pub message: Pubkey,
    /// Identity that pays for and authors the new account; it must be a
    /// signer of the current transaction.
    pub author: Pubkey,
    /// Address of the system allocator program; the host runtime routes
    /// the allocation through it and checks it against the well-known
    /// address, which is outside this library.
    pub system_program: Pubkey,
}

/// Outcome of `create_message`: the checks run in this order — signer
/// gating, re-initialization, capacity — and the first failure wins.
pub open spec fn create_result(
    state: Map<Pubkey, MessageView>,
    signers: Seq<Pubkey>,
    author: Pubkey,
    address: Pubkey,
    content: Seq<u8>,
) -> Result<(), MessageError> {
    if !signers.contains(author) {
        Err(MessageError::UnauthorizedSigner)
    } else if state.contains_key(address) {
        Err(MessageError::AlreadyInitialized)
    } else if content.len() > MAX_CONTENT_LEN {
        Err(MessageError::CapacityExceeded)
    } else {
        Ok(())
    }
}

/// The ledger after `create_message`: the new record appears exactly
/// when every check passes; on any failure nothing is mutated.
pub open spec fn create_next(
    state: Map<Pubkey, MessageView>,
    signers: Seq<Pubkey>,
    author: Pubkey,
    address: Pubkey,
    content: Seq<u8>,
) -> Map<Pubkey, MessageView> {
    if create_result(state, signers, author, address, content) is Ok {
        state.insert(address, MessageView { author, content })
    } else {
        state
    }
}

/// The null operation: touches no account, always succeeds.
pub fn initialize(_ctx: &Initialize) -> (r: Result<(), MessageError>)
    ensures
        r == Ok::<(), MessageError>(()),
{
    Ok(())
}

/// Creates the message account named by `ctx` on the snapshot, with
/// `ctx.author` as its permanent author and `content` as its text.
///
/// The checks of `create_result` run before any mutation, so a failed
/// call leaves the snapshot untouched.
pub fn create_message(
    ledger: &mut Ledger,
    ctx: &CreateMessage,
    signers: &Vec<Pubkey>,
    content: Vec<u8>,
) -> (r: Result<(), MessageError>)
    requires
        old(ledger).wf(),
    ensures
        final(ledger).wf(),
        r == create_result(old(ledger)@, signers@, ctx.author, ctx.message, content@),
        final(ledger)@ == create_next(old(ledger)@, signers@, ctx.author, ctx.message, content@),
{
    let mut is_signer = false;
    let n = signers.len();
    let mut i: usize = 0;
    while i < n
        invariant
            n == signers@.len(),
            0 <= i <= n,
            is_signer ==> signers@.contains(ctx.author),
            !is_signer ==> forall|j: int| 0 <= j < i ==> signers@[j] != ctx.author,
        decreases n - i,
    {
        if signers[i] == ctx.author {
            is_signer = true;
        }
        i += 1;
    }
    if !is_signer {
        return Err(MessageError::UnauthorizedSigner);
    }
    if ledger.contains_address(&ctx.message) {
        return Err(MessageError::AlreadyInitialized);
    }
    if content.len() > MAX_CONTENT_LEN {
        return Err(MessageError::CapacityExceeded);
    }
    let ghost old_entries = ledger.entries@;
    let entry = AccountEntry {
        address: ctx.message,
        message: Message { author: ctx.author, content },
    };
    ledger.entries.push(entry);
    proof {
        assert(ledger.entries@.drop_last() =~= old_entries);
        lemma_entries_as_map_domain(old_entries, ctx.message);
        assert forall|j: int, k: int|
            0 <= j < k < ledger.entries@.len() implies ledger.entries@[j].address
            != ledger.entries@[k].address by {
            if k == ledger.entries@.len() - 1 {
                assert(old_entries[j].address != ctx.message);
            }
        }
    }
    Ok(())
}

/// Signer gating: when the designated author is not among the signers,
/// `create_message` fails with `UnauthorizedSigner` and the ledger
/// state is unchanged.
pub proof fn lemma_signer_gating(
    state: Map<Pubkey, MessageView>,
    signers: Seq<Pubkey>,
    author: Pubkey,
    address: Pubkey,
    content: Seq<u8>,
)
    requires
        !signers.contains(author),
    ensures
        create_result(state, signers, author, address, content)
            == Err::<(), MessageError>(MessageError::UnauthorizedSigner),
        create_next(state, signers, author, address, content) == state,
{
}

/// No re-initialization: after a successful creation at an address, a
/// second creation at the same address by any signing author fails with
/// `AlreadyInitialized`, and the record written by the first call is
/// unchanged.
pub proof fn lemma_no_reinit(
    state: Map<Pubkey, MessageView>,
    signers1: Seq<Pubkey>,
    author1: Pubkey,
    content1: Seq<u8>,
    signers2: Seq<Pubkey>,
    author2: Pubkey,
    content2: Seq<u8>,
    address: Pubkey,
)
    requires
        create_result(state, signers1, author1, address, content1) is Ok,
        signers2.contains(author2),
    ensures
        ({
            let mid = create_next(state, signers1, author1, address, content1);
            create_result(mid, signers2, author2, address, content2)
                == Err::<(), MessageError>(MessageError::AlreadyInitialized)
                && create_next(mid, signers2, author2, address, content2) == mid
                && mid[address] == MessageView { author: author1, content: content1 }
        }),
{
}

/// Capacity bound: for a signing author and a fresh address, creation
/// fails with `CapacityExceeded` exactly when the content is longer
/// than `MAX_CONTENT_LEN` bytes; otherwise it succeeds and the stored
/// record round-trips exactly.
pub proof fn lemma_capacity_bound(
    state: Map<Pubkey, MessageView>,
    signers: Seq<Pubkey>,
    author: Pubkey,
    address: Pubkey,
    content: Seq<u8>,
)
    requires
        signers.contains(author),
        !state.contains_key(address),
    ensures
        content.len() > MAX_CONTENT_LEN <==> create_result(state, signers, author, address, content)
            == Err::<(), MessageError>(MessageError::CapacityExceeded),
        content.len() > MAX_CONTENT_LEN ==> create_next(state, signers, author, address, content)
            == state,
        content.len() <= MAX_CONTENT_LEN ==> create_result(state, signers, author, address, content)
            is Ok && create_next(state, signers, author, address, content)[address]
            == (MessageView { author, content }),
{
}

/// With pairwise distinct addresses the map has one key per entry.
pub proof fn lemma_entries_as_map_len(s: Seq<AccountEntry>)
    requires
        forall|j: int, k: int| 0 <= j < k < s.len() ==> s[j].address != s[k].address,
    ensures
        entries_as_map(s).dom().finite(),
        entries_as_map(s).dom().len() == s.len(),
    decreases s.len(),
{
    if s.len() > 0 {
        lemma_entries_as_map_len(s.drop_last());
        lemma_entries_as_map_domain(s.drop_last(), s.last().address);
        assert(!entries_as_map(s.drop_last()).contains_key(s.last().address));
    }
}

} // verus!
