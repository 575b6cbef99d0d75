use vstd::prelude::*;

verus! {

/// Storage key under which the genesis block holds its GrandPa authorities:
/// the ASCII bytes of `:grandpa_authorities`.
pub open spec fn grandpa_authorities_key() -> Seq<u8> {
    seq![58u8, 103u8, 114u8, 97u8, 110u8, 100u8, 112u8, 97u8, 95u8, 97u8, 117u8, 116u8, 104u8, 111u8, 114u8, 105u8, 116u8, 105u8, 101u8, 115u8]
}

/// The bytes of `grandpa_authorities_key`.
pub fn grandpa_authorities_key_bytes() -> (r: Vec<u8>)
    ensures
        r@ == grandpa_authorities_key(),
{
    let r: Vec<u8> = vec![58u8, 103u8, 114u8, 97u8, 110u8, 100u8, 112u8, 97u8, 95u8, 97u8, 117u8, 116u8, 104u8, 111u8, 114u8, 105u8, 116u8, 105u8, 101u8, 115u8];
    assert(r@ =~= grandpa_authorities_key());
    r
}

/// Bytes of one encoded authority: a 32-byte public key, then its weight as a
/// little-endian 64-bit integer.
pub const AUTHORITY_ENCODED_LEN: usize = 40;

/// One member of a GrandPa authorities set.
#[derive(Debug, Clone, PartialEq, Eq)]
pub struct GrandpaAuthority {
    /// Ed25519 public key of the authority.
    pub public_key: Vec<u8>,
    /// Weight of its votes.
    pub weight: u64,
}

/// A change of the GrandPa authorities scheduled by a finalized block but not yet triggered.
#[derive(Debug, Clone)]
pub struct FinalizedScheduledChange {
    pub trigger_block_height: u64,
    pub new_authorities_list: Vec<GrandpaAuthority>,
}

/// Information about the latest finalized block and state found in its ancestors.
#[derive(Debug, Clone)]
pub struct ChainInformation {
    /// SCALE encoding of the header of the highest known finalized block.
    pub finalized_block_header: Vec<u8>,
    /// Slot number of block #1, once the finalized block is #1 or later.
    pub babe_finalized_block1_slot_number: Option<u64>,
    /// SCALE encoding of the BABE epoch that the finalized block belongs to and of its
    /// configuration; `None` for block #0 or a block of epoch #0.
    pub babe_finalized_block_epoch_information: Option<Vec<u8>>,
    /// SCALE encoding of the BABE epoch that follows and of its configuration;
    /// `None` for block #0.
    pub babe_finalized_next_epoch_transition: Option<Vec<u8>>,
    /// GrandPa authorities set ID of the block right after the finalized block.
    pub grandpa_after_finalized_block_authorities_set_id: u64,
    /// GrandPa authorities that finalize the block right after the finalized block.
    pub grandpa_finalized_triggered_authorities: Vec<GrandpaAuthority>,
    /// Authority changes scheduled by finalized blocks and not triggered yet.
    pub grandpa_finalized_scheduled_changes: Vec<FinalizedScheduledChange>,
}

/// Why the GrandPa configuration could not be read from the genesis storage.
#[derive(Debug, Clone, Copy, PartialEq, Eq, Structural)]
pub enum GrandpaConfigError {
    /// The storage holds no value under the authorities key.
    NotFound,
    /// The value under the authorities key is not a version-1 list of authorities.
    InvalidEncoding,
}

/// Error when building the chain information from the genesis storage.
#[derive(Debug, Clone, Copy, PartialEq, Eq, Structural)]
pub enum FromGenesisStorageError {
    /// Error when retrieving the GrandPa configuration.
    GrandpaConfigLoad(GrandpaConfigError),
}

/// The value of the first entry of `storage` whose key is `key`.
pub open spec fn storage_get(storage: Seq<(Seq<u8>, Seq<u8>)>, key: Seq<u8>) -> Option<Seq<u8>>
    decreases storage.len(),
{
    if storage.len() == 0 {
        None
    } else if storage[0].0 == key {
        Some(storage[0].1)
    } else {
        storage_get(storage.drop_first(), key)
    }
}

/// The SCALE compact integer at the front of `b`, with the number of bytes it takes,
/// in its one-, two- and four-byte forms.
pub open spec fn compact_prefix(b: Seq<u8>) -> Option<(nat, nat)> {
    if b.len() == 0 {
        None
    } else if b[0] % 4 == 0 {
        Some(((b[0] / 4) as nat, 1))
    } else if b[0] % 4 == 1 && b.len() >= 2 {
        Some((((b[0] + 256 * b[1]) / 4) as nat, 2))
    } else if b[0] % 4 == 2 && b.len() >= 4 {
        Some((((b[0] + 256 * b[1] + 65536 * b[2] + 16777216 * b[3]) / 4) as nat, 4))
    } else {
        None
    }
}

/// A little-endian unsigned integer.
pub open spec fn le_value(b: Seq<u8>) -> nat
    decreases b.len(),
{
    if b.len() == 0 {
        0
    } else {
        (b[0] + 256 * le_value(b.drop_first())) as nat
    }
}

/// Public key and weight of the `i`-th authority of an encoded list body.
pub open spec fn authority_at(body: Seq<u8>, i: int) -> (Seq<u8>, nat) {
    (body.subrange(40 * i, 40 * i + 32), le_value(body.subrange(40 * i + 32, 40 * i + 40)))
}

/// The authorities that a stored value lists: the version byte 1, a compact count,
/// then exactly that many encoded authorities.
pub open spec fn decode_authorities(v: Seq<u8>) -> Option<Seq<(Seq<u8>, nat)>> {
    if v.len() == 0 || v[0] != 1 {
        None
    } else {
        match compact_prefix(v.drop_first()) {
            None => None,
            Some((n, w)) => {
                let body = v.subrange(1 + w as int, v.len() as int);
                if body.len() != 40 * n {
                    None
                } else {
                    Some(Seq::new(n, |i: int| authority_at(body, i)))
                }
            },
        }
    }
}

/// An authority list holds exactly the decoded authorities, in order.
pub open spec fn authorities_match(list: Seq<GrandpaAuthority>, dec: Seq<(Seq<u8>, nat)>) -> bool {
    &&& list.len() == dec.len()
    &&& forall|i: int|
        0 <= i < list.len() ==> (#[trigger] list[i]).public_key@ == dec[i].0 && list[i].weight
            == dec[i].1
}

/// The entries of a storage as key and value sequences.
pub open spec fn storage_view(storage: Seq<(Vec<u8>, Vec<u8>)>) -> Seq<(Seq<u8>, Seq<u8>)> {
    storage.map_values(|e: (Vec<u8>, Vec<u8>)| (e.0@, e.1@))
}

/// The little-endian value of eight bytes, as `le_value` defines it.
fn u64_from_le(b: [u8; 8]) -> (r: u64)
    ensures
        r == le_value(b@),
{
    let mut acc: u64 = 0;
    let mut i: usize = 8;
    while i > 0
        invariant
            i <= 8,
            b@.len() == 8,
            acc == le_value(b@.subrange(i as int, 8)),
            le_value(b@.subrange(i as int, 8)) < pow256((8 - i) as nat),
        decreases i,
    {
        i = i - 1;
        let ghost tail = b@.subrange(i + 1, 8);
        assert(b@.subrange(i as int, 8).drop_first() =~= tail);
        assert(b@.subrange(i as int, 8)[0] == b[i as int]);
        assert(pow256((8 - i) as nat) == 256 * pow256((8 - i - 1) as nat));
        assert(acc * 256 + b[i as int] < 256 * pow256((8 - i - 1) as nat)) by (nonlinear_arith)
            requires
                acc < pow256((8 - i - 1) as nat),
                b[i as int] < 256,
        ;
        assert(pow256(8) == 0x1_0000_0000_0000_0000) by {
            reveal_with_fuel(pow256, 9);
        }
        proof {
            lemma_pow256_mono((8 - i) as nat);
        }
        acc = acc * 256 + b[i] as u64;
    }
    assert(b@.subrange(0, 8) =~= b@);
    acc
}

/// `256` to the power `n`.
pub open spec fn pow256(n: nat) -> nat
    decreases n,
{
    if n == 0 {
        1
    } else {
        256 * pow256((n - 1) as nat)
    }
}

proof fn lemma_pow256_mono(n: nat)
    requires
        n <= 8,
    ensures
        pow256(n) <= pow256(8),
    decreases 8 - n,
{
    if n < 8 {
        lemma_pow256_mono(n + 1);
    }
}

fn bytes_eq(a: &[u8], b: &[u8]) -> (r: bool)
    ensures
        r == (a@ == b@),
{
    if a.len() != b.len() {
        return false;
    }
    let mut i: usize = 0;
    while i < a.len()
        invariant
            a@.len() == b@.len(),
            i <= a@.len(),
            forall|j: int| 0 <= j < i ==> a@[j] == b@[j],
        decreases a@.len() - i,
    {
        if a[i] != b[i] {
            return false;
        }
        i = i + 1;
    }
    assert(a@ =~= b@);
    true
}

/// The value stored under `key`, as `storage_get` defines it.
pub fn storage_lookup(storage: &[(Vec<u8>, Vec<u8>)], key: &[u8]) -> (r: Option<Vec<u8>>)
    ensures
        match storage_get(storage_view(storage@), key@) {
            None => r is None,
            Some(v) => r matches Some(x) && x@ == v,
        },
{
    let mut i: usize = 0;
    assert(storage_view(storage@).subrange(0, storage@.len() as int) =~= storage_view(storage@));
    while i < storage.len()
        invariant
            i <= storage@.len(),
            storage_get(storage_view(storage@), key@) == storage_get(
                storage_view(storage@).subrange(i as int, storage@.len() as int),
                key@,
            ),
        decreases storage@.len() - i,
    {
        let ghost sv = storage_view(storage@);
        let ghost rest = sv.subrange(i as int, storage@.len() as int);
        assert(rest[0] == (storage@[i as int].0@, storage@[i as int].1@));
        if bytes_eq(storage[i].0.as_slice(), key) {
            return Some(storage[i].1.clone());
        }
        assert(rest.drop_first() =~= sv.subrange(i + 1, storage@.len() as int));
        i = i + 1;
    }
    assert(storage_view(storage@).subrange(i as int, storage@.len() as int) =~= Seq::<
        (Seq<u8>, Seq<u8>),
    >::empty());
    None
}

/// The SCALE compact integer at offset `off` of `b`, as `compact_prefix` reads it.
fn read_compact(b: &[u8], off: usize) -> (r: Option<(u64, usize)>)
    requires
        off <= b@.len(),
    ensures
        match compact_prefix(b@.subrange(off as int, b@.len() as int)) {
            None => r is None,
            Some((n, w)) => r == Some((n as u64, w as usize)) && n < 0x4000_0000,
        },
{
    let ghost s = b@.subrange(off as int, b@.len() as int);
    if off >= b.len() {
        return None;
    }
    let b0 = b[off];
    assert(s[0] == b0);
    if b0 % 4 == 0 {
        return Some(((b0 / 4) as u64, 1));
    }
    if b0 % 4 == 1 && b.len() - off >= 2 {
        let b1 = b[off + 1];
        assert(s[1] == b1);
        return Some(((b0 as u64 + 256 * b1 as u64) / 4, 2));
    }
    if b0 % 4 == 2 && b.len() - off >= 4 {
        let b1 = b[off + 1];
        let b2 = b[off + 2];
        let b3 = b[off + 3];
        assert(s[1] == b1 && s[2] == b2 && s[3] == b3);
        return Some(
            ((b0 as u64 + 256 * b1 as u64 + 65536 * b2 as u64 + 16777216 * b3 as u64) / 4, 4),
        );
    }
    None
}

/// The bytes of `b` from `start` to `end`.
fn copy_range(b: &[u8], start: usize, end: usize) -> (r: Vec<u8>)
    requires
        start <= end <= b@.len(),
    ensures
        r@ == b@.subrange(start as int, end as int),
{
    let mut r: Vec<u8> = Vec::with_capacity(end - start);
    let mut i: usize = start;
    while i < end
        invariant
            start <= i <= end,
            end <= b@.len(),
            r@ == b@.subrange(start as int, i as int),
        decreases end - i,
    {
        r.push(b[i]);
        i = i + 1;
        assert(r@ =~= b@.subrange(start as int, i as int));
    }
    r
}

/// Decodes a stored list of GrandPa authorities, as `decode_authorities` defines it.
pub fn decode_grandpa_authorities(v: &[u8]) -> (r: Option<Vec<GrandpaAuthority>>)
    ensures
        match decode_authorities(v@) {
            None => r is None,
            Some(d) => r matches Some(l) && authorities_match(l@, d),
        },
{
    if v.len() == 0 || v[0] != 1 {
        return None;
    }
    assert(v@.drop_first() =~= v@.subrange(1, v@.len() as int));
    let (n, w) = match read_compact(v, 1) {
        None => {
            return None;
        },
        Some(p) => p,
    };
    let body_len: usize = v.len() - 1 - w;
    if body_len as u64 != 40 * n {
        return None;
    }
    let ghost body = v@.subrange(1 + w as int, v@.len() as int);
    let ghost dec = Seq::new(n as nat, |i: int| authority_at(body, i));
    let count: usize = n as usize;
    let mut list: Vec<GrandpaAuthority> = Vec::with_capacity(count);
    let mut i: usize = 0;
    while i < count
        invariant
            count == n,
            body.len() == 40 * n,
            body == v@.subrange(1 + w as int, v@.len() as int),
            1 + w + body.len() == v@.len(),
            v@.len() <= usize::MAX,
            dec == Seq::new(n as nat, |i: int| authority_at(body, i)),
            i <= count,
            list@.len() == i,
            forall|j: int|
                0 <= j < i ==> (#[trigger] list@[j]).public_key@ == dec[j].0 && list@[j].weight
                    == dec[j].1,
        decreases count - i,
    {
        assert(40 * i + 40 <= 40 * n) by (nonlinear_arith)
            requires
                i < n,
        ;
        let base: usize = 1 + w + 40 * i;
        let key = copy_range(v, base, base + 32);
        let arr: [u8; 8] = [
            v[base + 32],
            v[base + 33],
            v[base + 34],
            v[base + 35],
            v[base + 36],
            v[base + 37],
            v[base + 38],
            v[base + 39],
        ];
        proof {
            assert(key@ =~= body.subrange(40 * i, 40 * i + 32));
            assert(arr@ =~= body.subrange(40 * i + 32, 40 * i + 40));
        }
        let weight = u64_from_le(arr);
        list.push(GrandpaAuthority { public_key: key, weight });
        i = i + 1;
    }
    Some(list)
}

impl ChainInformation {
    /// Builds the chain information of the genesis block from its storage entries
    /// (each a key and its value, the first entry of a key counting) and the SCALE
    /// encoding of its header. Nothing is finalized beyond genesis: no BABE epoch is
    /// known, the GrandPa set ID is 0 and no change is scheduled; the GrandPa
    /// authorities are those that the storage lists.
    pub fn from_genesis_storage(
        genesis_storage: &[(Vec<u8>, Vec<u8>)],
        genesis_block_header: &[u8],
    ) -> (r: Result<ChainInformation, FromGenesisStorageError>)
        ensures
            match storage_get(storage_view(genesis_storage@), grandpa_authorities_key()) {
                None => r == Err::<ChainInformation, FromGenesisStorageError>(
                    FromGenesisStorageError::GrandpaConfigLoad(GrandpaConfigError::NotFound),
                ),
                Some(v) => match decode_authorities(v) {
                    None => r == Err::<ChainInformation, FromGenesisStorageError>(
                        FromGenesisStorageError::GrandpaConfigLoad(
                            GrandpaConfigError::InvalidEncoding,
                        ),
                    ),
                    Some(d) => r matches Ok(ci) && {
                        &&& ci.finalized_block_header@ == genesis_block_header@
                        &&& ci.babe_finalized_block1_slot_number is None
                        &&& ci.babe_finalized_block_epoch_information is None
                        &&& ci.babe_finalized_next_epoch_transition is None
                        &&& ci.grandpa_after_finalized_block_authorities_set_id == 0
                        &&& authorities_match(ci.grandpa_finalized_triggered_authorities@, d)
                        &&& ci.grandpa_finalized_scheduled_changes@.len() == 0
                    },
                },
            },
    {
        let key = grandpa_authorities_key_bytes();
        let value = match storage_lookup(genesis_storage, key.as_slice()) {
            None => {
                return Err(FromGenesisStorageError::GrandpaConfigLoad(GrandpaConfigError::NotFound));
            },
            Some(v) => v,
        };
        let authorities = match decode_grandpa_authorities(value.as_slice()) {
            None => {
                return Err(
                    FromGenesisStorageError::GrandpaConfigLoad(GrandpaConfigError::InvalidEncoding),
                );
            },
            Some(l) => l,
        };
        let header = copy_range(genesis_block_header, 0, genesis_block_header.len());
        proof {
            assert(genesis_block_header@.subrange(0, genesis_block_header@.len() as int)
                =~= genesis_block_header@);
        }
        Ok(ChainInformation {
            finalized_block_header: header,
            babe_finalized_block1_slot_number: None,
            babe_finalized_block_epoch_information: None,
            babe_finalized_next_epoch_transition: None,
            grandpa_after_finalized_block_authorities_set_id: 0,
            grandpa_finalized_triggered_authorities: authorities,
            grandpa_finalized_scheduled_changes: Vec::new(),
        })
    }
}

/// Equivalent to a `ChainInformation` but referencing an existing one. Cheap to copy
/// but for the scheduled changes.
#[derive(Debug, Clone)]
pub struct ChainInformationRef<'a> {
    /// See the same field of `ChainInformation`.
    pub finalized_block_header: &'a [u8],
    /// See the same field of `ChainInformation`.
    pub babe_finalized_block1_slot_number: Option<u64>,
    /// See the same field of `ChainInformation`.
    pub babe_finalized_block_epoch_information: Option<&'a [u8]>,
    /// See the same field of `ChainInformation`.
    pub babe_finalized_next_epoch_transition: Option<&'a [u8]>,
    /// See the same field of `ChainInformation`.
    pub grandpa_after_finalized_block_authorities_set_id: u64,
    /// See the same field of `ChainInformation`.
    pub grandpa_finalized_triggered_authorities: &'a [GrandpaAuthority],
    /// See the same field of `ChainInformation`.
    pub grandpa_finalized_scheduled_changes: Vec<FinalizedScheduledChange>,
}

/// Two authority lists hold the same keys and weights, in order.
pub open spec fn same_authorities(a: Seq<GrandpaAuthority>, b: Seq<GrandpaAuthority>) -> bool {
    &&& a.len() == b.len()
    &&& forall|i: int|
        0 <= i < a.len() ==> (#[trigger] a[i]).public_key@ == b[i].public_key@ && a[i].weight
            == b[i].weight
}

/// Two lists of scheduled changes agree on every height and authority list, in order.
pub open spec fn same_changes(a: Seq<FinalizedScheduledChange>, b: Seq<FinalizedScheduledChange>) -> bool {
    &&& a.len() == b.len()
    &&& forall|i: int|
        0 <= i < a.len() ==> (#[trigger] a[i]).trigger_block_height == b[i].trigger_block_height
            && same_authorities(a[i].new_authorities_list@, b[i].new_authorities_list@)
}

/// The bytes of an optional encoding.
pub open spec fn opt_view(o: Option<&[u8]>) -> Option<Seq<u8>> {
    match o {
        Some(b) => Some(b@),
        None => None,
    }
}

/// The bytes of an optional owned encoding.
pub open spec fn opt_vec_view(o: Option<Vec<u8>>) -> Option<Seq<u8>> {
    match o {
        Some(b) => Some(b@),
        None => None,
    }
}

fn copy_authorities(list: &[GrandpaAuthority]) -> (r: Vec<GrandpaAuthority>)
    ensures
        same_authorities(r@, list@),
{
    let mut r: Vec<GrandpaAuthority> = Vec::with_capacity(list.len());
    let mut i: usize = 0;
    while i < list.len()
        invariant
            i <= list@.len(),
            r@.len() == i,
            forall|j: int|
                0 <= j < i ==> (#[trigger] r@[j]).public_key@ == list@[j].public_key@
                    && r@[j].weight == list@[j].weight,
        decreases list@.len() - i,
    {
        let a = &list[i];
        let key = copy_range(a.public_key.as_slice(), 0, a.public_key.len());
        proof {
            assert(a.public_key@.subrange(0, a.public_key@.len() as int) =~= a.public_key@);
        }
        r.push(GrandpaAuthority { public_key: key, weight: a.weight });
        i = i + 1;
    }
    r
}

fn copy_changes(list: &[FinalizedScheduledChange]) -> (r: Vec<FinalizedScheduledChange>)
    ensures
        same_changes(r@, list@),
{
    let mut r: Vec<FinalizedScheduledChange> = Vec::with_capacity(list.len());
    let mut i: usize = 0;
    while i < list.len()
        invariant
            i <= list@.len(),
            r@.len() == i,
            forall|j: int|
                0 <= j < i ==> (#[trigger] r@[j]).trigger_block_height
                    == list@[j].trigger_block_height && same_authorities(
                    r@[j].new_authorities_list@,
                    list@[j].new_authorities_list@,
                ),
        decreases list@.len() - i,
    {
        let c = &list[i];
        let authorities = copy_authorities(c.new_authorities_list.as_slice());
        r.push(
            FinalizedScheduledChange {
                trigger_block_height: c.trigger_block_height,
                new_authorities_list: authorities,
            },
        );
        i = i + 1;
    }
    r
}

fn copy_opt(o: Option<&[u8]>) -> (r: Option<Vec<u8>>)
    ensures
        opt_vec_view(r) == opt_view(o),
{
    match o {
        Some(b) => {
            let v = copy_range(b, 0, b.len());
            assert(b@.subrange(0, b@.len() as int) =~= b@);
            Some(v)
        },
        None => None,
    }
}

impl<'a> ChainInformationRef<'a> {
    /// A view of `info` that borrows its header, epochs and authorities.
    pub fn from(info: &'a ChainInformation) -> (r: ChainInformationRef<'a>)
        ensures
            r.finalized_block_header@ == info.finalized_block_header@,
            r.babe_finalized_block1_slot_number == info.babe_finalized_block1_slot_number,
            opt_view(r.babe_finalized_block_epoch_information) == opt_vec_view(
                info.babe_finalized_block_epoch_information,
            ),
            opt_view(r.babe_finalized_next_epoch_transition) == opt_vec_view(
                info.babe_finalized_next_epoch_transition,
            ),
            r.grandpa_after_finalized_block_authorities_set_id
                == info.grandpa_after_finalized_block_authorities_set_id,
            r.grandpa_finalized_triggered_authorities@
                == info.grandpa_finalized_triggered_authorities@,
            same_changes(
                r.grandpa_finalized_scheduled_changes@,
                info.grandpa_finalized_scheduled_changes@,
            ),
    {
        let epoch = match &info.babe_finalized_block_epoch_information {
            Some(e) => Some(e.as_slice()),
            None => None,
        };
        let next = match &info.babe_finalized_next_epoch_transition {
            Some(e) => Some(e.as_slice()),
            None => None,
        };
        ChainInformationRef {
            finalized_block_header: info.finalized_block_header.as_slice(),
            babe_finalized_block1_slot_number: info.babe_finalized_block1_slot_number,
            babe_finalized_block_epoch_information: epoch,
            babe_finalized_next_epoch_transition: next,
            grandpa_after_finalized_block_authorities_set_id: info.grandpa_after_finalized_block_authorities_set_id,
            grandpa_finalized_triggered_authorities: info.grandpa_finalized_triggered_authorities.as_slice(),
            grandpa_finalized_scheduled_changes: copy_changes(
                info.grandpa_finalized_scheduled_changes.as_slice(),
            ),
        }
    }
}

impl ChainInformation {
    /// An owned copy of the information that `info` references.
    pub fn from(info: ChainInformationRef<'_>) -> (r: ChainInformation)
        ensures
            r.finalized_block_header@ == info.finalized_block_header@,
            r.babe_finalized_block1_slot_number == info.babe_finalized_block1_slot_number,
            opt_vec_view(r.babe_finalized_block_epoch_information) == opt_view(
                info.babe_finalized_block_epoch_information,
            ),
            opt_vec_view(r.babe_finalized_next_epoch_transition) == opt_view(
                info.babe_finalized_next_epoch_transition,
            ),
            r.grandpa_after_finalized_block_authorities_set_id
                == info.grandpa_after_finalized_block_authorities_set_id,
            same_authorities(
                r.grandpa_finalized_triggered_authorities@,
                info.grandpa_finalized_triggered_authorities@,
            ),
            same_changes(
                r.grandpa_finalized_scheduled_changes@,
                info.grandpa_finalized_scheduled_changes@,
            ),
    {
        let header = copy_range(info.finalized_block_header, 0, info.finalized_block_header.len());
        proof {
            assert(info.finalized_block_header@.subrange(0, info.finalized_block_header@.len() as int)
                =~= info.finalized_block_header@);
        }
        ChainInformation {
            finalized_block_header: header,
            babe_finalized_block1_slot_number: info.babe_finalized_block1_slot_number,
            babe_finalized_block_epoch_information: copy_opt(
                info.babe_finalized_block_epoch_information,
            ),
            babe_finalized_next_epoch_transition: copy_opt(info.babe_finalized_next_epoch_transition),
            grandpa_after_finalized_block_authorities_set_id: info.grandpa_after_finalized_block_authorities_set_id,
            grandpa_finalized_triggered_authorities: copy_authorities(
                info.grandpa_finalized_triggered_authorities,
            ),
            grandpa_finalized_scheduled_changes: copy_changes(
                info.grandpa_finalized_scheduled_changes.as_slice(),
            ),
        }
    }
}

} // verus!
