//! Identifiers, owners and object snapshots.
use vstd::prelude::*;

verus! {

/// The byte at place `i` of the 16 bytes of `x`, most significant byte first.
pub open spec fn be_byte(x: u128, i: int) -> u8 {
    ((x >> (((15 - i) * 8) as u128)) & 0xff) as u8
}

/// The 16 bytes of `x`, most significant byte first.
pub open spec fn be_bytes(x: u128) -> Seq<u8> {
    Seq::new(16, |i: int| be_byte(x, i))
}

/// The 32 bytes of the value with the given halves, most significant byte
/// first.
pub open spec fn bytes_of(hi: u128, lo: u128) -> Seq<u8> {
    be_bytes(hi) + be_bytes(lo)
}

/// Two values with the same byte at place `i` agree on the eight bits that
/// the byte holds.
proof fn lemma_same_byte(x: u128, y: u128, i: int)
    requires
        0 <= i < 16,
        be_bytes(x) == be_bytes(y),
    ensures
        (x >> (((15 - i) * 8) as u128)) & 0xff == (y >> (((15 - i) * 8) as u128)) & 0xff,
{
    let shift = ((15 - i) * 8) as u128;
    let a = (x >> shift) & 0xff;
    let b = (y >> shift) & 0xff;
    assert(a <= 0xff) by (bit_vector)
        requires
            a == (x >> shift) & 0xff,
    ;
    assert(b <= 0xff) by (bit_vector)
        requires
            b == (y >> shift) & 0xff,
    ;
    assert(be_bytes(x)[i] == be_byte(x, i));
    assert(be_bytes(y)[i] == be_byte(y, i));
}

/// Values with the same 16 bytes are equal.
pub proof fn lemma_be_bytes_injective(x: u128, y: u128)
    requires
        be_bytes(x) == be_bytes(y),
    ensures
        x == y,
{
    assert((x >> 120) & 0xff == (y >> 120) & 0xff) by {
        lemma_same_byte(x, y, 0);
    }
    assert((x >> 112) & 0xff == (y >> 112) & 0xff) by {
        lemma_same_byte(x, y, 1);
    }
    assert((x >> 104) & 0xff == (y >> 104) & 0xff) by {
        lemma_same_byte(x, y, 2);
    }
    assert((x >> 96) & 0xff == (y >> 96) & 0xff) by {
        lemma_same_byte(x, y, 3);
    }
    assert((x >> 88) & 0xff == (y >> 88) & 0xff) by {
        lemma_same_byte(x, y, 4);
    }
    assert((x >> 80) & 0xff == (y >> 80) & 0xff) by {
        lemma_same_byte(x, y, 5);
    }
    assert((x >> 72) & 0xff == (y >> 72) & 0xff) by {
        lemma_same_byte(x, y, 6);
    }
    assert((x >> 64) & 0xff == (y >> 64) & 0xff) by {
        lemma_same_byte(x, y, 7);
    }
    assert((x >> 56) & 0xff == (y >> 56) & 0xff) by {
        lemma_same_byte(x, y, 8);
    }
    assert((x >> 48) & 0xff == (y >> 48) & 0xff) by {
        lemma_same_byte(x, y, 9);
    }
    assert((x >> 40) & 0xff == (y >> 40) & 0xff) by {
        lemma_same_byte(x, y, 10);
    }
    assert((x >> 32) & 0xff == (y >> 32) & 0xff) by {
        lemma_same_byte(x, y, 11);
    }
    assert((x >> 24) & 0xff == (y >> 24) & 0xff) by {
        lemma_same_byte(x, y, 12);
    }
    assert((x >> 16) & 0xff == (y >> 16) & 0xff) by {
        lemma_same_byte(x, y, 13);
    }
    assert((x >> 8) & 0xff == (y >> 8) & 0xff) by {
        lemma_same_byte(x, y, 14);
    }
    assert((x >> 0) & 0xff == (y >> 0) & 0xff) by {
        lemma_same_byte(x, y, 15);
    }
    assert(x == y) by (bit_vector)
        requires
            (x >> 120) & 0xff == (y >> 120) & 0xff,
            (x >> 112) & 0xff == (y >> 112) & 0xff,
            (x >> 104) & 0xff == (y >> 104) & 0xff,
            (x >> 96) & 0xff == (y >> 96) & 0xff,
            (x >> 88) & 0xff == (y >> 88) & 0xff,
            (x >> 80) & 0xff == (y >> 80) & 0xff,
            (x >> 72) & 0xff == (y >> 72) & 0xff,
            (x >> 64) & 0xff == (y >> 64) & 0xff,
            (x >> 56) & 0xff == (y >> 56) & 0xff,
            (x >> 48) & 0xff == (y >> 48) & 0xff,
            (x >> 40) & 0xff == (y >> 40) & 0xff,
            (x >> 32) & 0xff == (y >> 32) & 0xff,
            (x >> 24) & 0xff == (y >> 24) & 0xff,
            (x >> 16) & 0xff == (y >> 16) & 0xff,
            (x >> 8) & 0xff == (y >> 8) & 0xff,
            (x >> 0) & 0xff == (y >> 0) & 0xff,
    ;
}

/// Values with the same 32 bytes have the same halves: distinct identifiers
/// have distinct bytes.
pub proof fn lemma_bytes_injective(hi: u128, lo: u128, other_hi: u128, other_lo: u128)
    requires
        bytes_of(hi, lo) == bytes_of(other_hi, other_lo),
    ensures
        hi == other_hi,
        lo == other_lo,
{
    let a = bytes_of(hi, lo);
    let b = bytes_of(other_hi, other_lo);
    assert forall|i: int| 0 <= i < 16 implies be_bytes(hi)[i] == be_bytes(other_hi)[i] by {
        assert(a[i] == be_bytes(hi)[i]);
        assert(b[i] == be_bytes(other_hi)[i]);
    }
    assert forall|i: int| 0 <= i < 16 implies be_bytes(lo)[i] == be_bytes(other_lo)[i] by {
        assert(a[i + 16] == be_bytes(lo)[i]);
        assert(b[i + 16] == be_bytes(other_lo)[i]);
    }
    assert(be_bytes(hi) =~= be_bytes(other_hi));
    assert(be_bytes(lo) =~= be_bytes(other_lo));
    lemma_be_bytes_injective(hi, other_hi);
    lemma_be_bytes_injective(lo, other_lo);
}

/// Appends the 16 bytes of `x` to `out`, most significant byte first.
fn push_be_bytes(out: &mut Vec<u8>, x: u128)
    ensures
        final(out)@ == old(out)@ + be_bytes(x),
{
    let mut i: u128 = 0;
    assert(out@ =~= old(out)@ + be_bytes(x).take(0));
    while i < 16
        invariant
            i <= 16,
            out@ == old(out)@ + be_bytes(x).take(i as int),
        decreases 16 - i,
    {
        let shift: u128 = (15 - i) * 8;
        let low: u128 = (x >> shift) & 0xff;
        assert(low <= 0xff) by (bit_vector)
            requires
                low == (x >> shift) & 0xff,
        ;
        let byte: u8 = low as u8;
        out.push(byte);
        assert(byte == be_byte(x, i as int));
        assert(out@ =~= old(out)@ + be_bytes(x).take(i + 1));
        i += 1;
    }
    assert(be_bytes(x).take(16) =~= be_bytes(x));
}

/// The 32 bytes of the value with the given halves, most significant byte
/// first.
fn bytes_to_vec(hi: u128, lo: u128) -> (v: Vec<u8>)
    ensures
        v@ == bytes_of(hi, lo),
{
    let mut v: Vec<u8> = Vec::new();
    push_be_bytes(&mut v, hi);
    push_be_bytes(&mut v, lo);
    assert(v@ =~= bytes_of(hi, lo));
    v
}

/// A 32-byte account address, held as the two halves of its big-endian value.
#[derive(Clone, Copy, Debug, PartialEq, Eq, PartialOrd, Ord, Hash, Structural)]
pub struct Address {
    pub hi: u128,
    pub lo: u128,
}

/// The 32-byte identifier of a chain object, held as the two halves of its
/// big-endian value. Identifiers are totally ordered by that value.
#[derive(Clone, Copy, Debug, PartialEq, Eq, PartialOrd, Ord, Hash, Structural)]
pub struct ObjectId {
    pub hi: u128,
    pub lo: u128,
}

impl Address {
    /// The 32 bytes of the address.
    pub open spec fn bytes(self) -> Seq<u8> {
        bytes_of(self.hi, self.lo)
    }

    /// The 32 bytes of the address.
    pub fn to_vec(&self) -> (v: Vec<u8>)
        ensures
            v@ == self.bytes(),
    {
        bytes_to_vec(self.hi, self.lo)
    }
}

impl ObjectId {
    /// The 32 bytes of the identifier.
    pub open spec fn bytes(self) -> Seq<u8> {
        bytes_of(self.hi, self.lo)
    }

    /// The 32 bytes of the identifier.
    pub fn to_vec(&self) -> (v: Vec<u8>)
        ensures
            v@ == self.bytes(),
    {
        bytes_to_vec(self.hi, self.lo)
    }

    /// The strict order on identifiers: by the high half, then by the low half.
    pub open spec fn precedes(self, other: ObjectId) -> bool {
        self.hi < other.hi || (self.hi == other.hi && self.lo < other.lo)
    }

    /// The identifier whose big-endian value has the given halves.
    pub fn new(hi: u128, lo: u128) -> (id: ObjectId)
        ensures
            id == (ObjectId { hi, lo }),
    {
        ObjectId { hi, lo }
    }

    /// Whether `self` comes strictly before `other`.
    pub fn less_than(&self, other: &ObjectId) -> (r: bool)
        ensures
            r == self.precedes(*other),
    {
        self.hi < other.hi || (self.hi == other.hi && self.lo < other.lo)
    }

    /// The address with the same 32 bytes.
    pub fn address(&self) -> (a: Address)
        ensures
            a == (Address { hi: self.hi, lo: self.lo }),
    {
        Address { hi: self.hi, lo: self.lo }
    }
}

/// The order on identifiers is a strict total order.
pub proof fn lemma_order_is_total(a: ObjectId, b: ObjectId, c: ObjectId)
    ensures
        !a.precedes(a),
        a.precedes(b) && b.precedes(c) ==> a.precedes(c),
        a == b || a.precedes(b) || b.precedes(a),
{
}

/// What authenticates transactions on a consensus-versioned object.
#[derive(Clone, Copy, Debug, PartialEq, Eq, Structural)]
pub enum Authenticator {
    SingleOwner(Address),
}

impl Authenticator {
    /// The address of the single owner.
    pub open spec fn single_owner(self) -> Address {
        match self {
            Authenticator::SingleOwner(a) => a,
        }
    }

    /// The address of the single owner.
    pub fn as_single_owner(&self) -> (a: Address)
        ensures
            a == self.single_owner(),
    {
        match self {
            Authenticator::SingleOwner(a) => *a,
        }
    }
}

/// Who controls an object. Two owners are equal exactly when they are the same
/// variant with the same payload.
#[derive(Clone, Copy, Debug, PartialEq, Eq, Structural)]
pub enum Owner {
    /// Owned by an address.
    AddressOwner(Address),
    /// Owned by another object, named by its identifier's bytes.
    ObjectOwner(Address),
    /// Shared, from the given version on.
    Shared { initial_shared_version: u64 },
    /// Frozen for good.
    Immutable,
    /// Sequenced by consensus from `start_version` on, under `authenticator`.
    ConsensusV2 { start_version: u64, authenticator: Authenticator },
}

/// The type of a typed object, as the index stores it.
#[derive(Clone, Debug, PartialEq, Eq)]
pub struct TypeDescriptor {
    pub package: String,
    pub module: String,
    pub name: String,
    /// The serialized type parameters; `None` for a type without any.
    pub instantiation: Option<Vec<u8>>,
}

/// The mathematical value of a [`TypeDescriptor`].
pub struct TypeDescriptorView {
    pub package: Seq<char>,
    pub module: Seq<char>,
    pub name: Seq<char>,
    pub instantiation: Option<Seq<u8>>,
}

/// The mathematical value of an optional byte string.
pub open spec fn opt_bytes_view(b: Option<Vec<u8>>) -> Option<Seq<u8>> {
    match b {
        Some(v) => Some(v@),
        None => None,
    }
}

/// A copy of `v`.
pub fn copy_bytes(v: &Vec<u8>) -> (r: Vec<u8>)
    ensures
        r@ == v@,
{
    let mut r: Vec<u8> = Vec::new();
    let mut i: usize = 0;
    while i < v.len()
        invariant
            i <= v.len(),
            r@ == v@.subrange(0, i as int),
        decreases v.len() - i,
    {
        r.push(v[i]);
        i += 1;
        assert(r@ =~= v@.subrange(0, i as int));
    }
    assert(v@.subrange(0, i as int) =~= v@);
    r
}

impl View for TypeDescriptor {
    type V = TypeDescriptorView;

    open spec fn view(&self) -> TypeDescriptorView {
        TypeDescriptorView {
            package: self.package@,
            module: self.module@,
            name: self.name@,
            instantiation: opt_bytes_view(self.instantiation),
        }
    }
}

impl TypeDescriptor {
    /// A copy with the same value.
    pub fn duplicate(&self) -> (r: TypeDescriptor)
        ensures
            r@ == self@,
    {
        let instantiation = match &self.instantiation {
            Some(b) => Some(copy_bytes(b)),
            None => None,
        };
        TypeDescriptor {
            package: self.package.clone(),
            module: self.module.clone(),
            name: self.name.clone(),
            instantiation,
        }
    }
}

/// What is known of an object's type when its snapshot is taken.
#[derive(Clone, Debug, PartialEq, Eq)]
pub enum TypeMetadata {
    /// The object has no type: it is a package.
    Untyped,
    /// The object has the given type.
    Typed(TypeDescriptor),
    /// The object's type could not be brought into stored form.
    Malformed,
}

/// The mathematical value of a [`TypeMetadata`].
pub enum TypeMetadataView {
    Untyped,
    Typed(TypeDescriptorView),
    Malformed,
}

impl View for TypeMetadata {
    type V = TypeMetadataView;

    open spec fn view(&self) -> TypeMetadataView {
        match self {
            TypeMetadata::Untyped => TypeMetadataView::Untyped,
            TypeMetadata::Typed(d) => TypeMetadataView::Typed(d@),
            TypeMetadata::Malformed => TypeMetadataView::Malformed,
        }
    }
}

impl TypeMetadata {
    /// A copy with the same value.
    pub fn duplicate(&self) -> (r: TypeMetadata)
        ensures
            r@ == self@,
    {
        match self {
            TypeMetadata::Untyped => TypeMetadata::Untyped,
            TypeMetadata::Typed(d) => TypeMetadata::Typed(d.duplicate()),
            TypeMetadata::Malformed => TypeMetadata::Malformed,
        }
    }
}

/// One version of an object: its identifier, owner, type and contents as they
/// were at one point of the chain's history.
#[derive(Clone, Debug, PartialEq, Eq)]
pub struct ObjectSnapshot {
    pub id: ObjectId,
    pub version: u64,
    pub owner: Owner,
    pub type_: TypeMetadata,
    pub contents: Vec<u8>,
}

/// The mathematical value of an [`ObjectSnapshot`].
pub struct ObjectSnapshotView {
    pub id: ObjectId,
    pub version: u64,
    pub owner: Owner,
    pub type_: TypeMetadataView,
    pub contents: Seq<u8>,
}

impl View for ObjectSnapshot {
    type V = ObjectSnapshotView;

    open spec fn view(&self) -> ObjectSnapshotView {
        ObjectSnapshotView {
            id: self.id,
            version: self.version,
            owner: self.owner,
            type_: self.type_@,
            contents: self.contents@,
        }
    }
}

impl ObjectSnapshot {
    /// The object's identifier.
    pub fn id(&self) -> (id: ObjectId)
        ensures
            id == self.id,
    {
        self.id
    }

    /// The object's owner.
    pub fn owner(&self) -> (o: &Owner)
        ensures
            *o == self.owner,
    {
        &self.owner
    }

    /// A copy with the same value.
    pub fn duplicate(&self) -> (r: ObjectSnapshot)
        ensures
            r@ == self@,
    {
        ObjectSnapshot {
            id: self.id,
            version: self.version,
            owner: self.owner,
            type_: self.type_.duplicate(),
            contents: copy_bytes(&self.contents),
        }
    }
}

} // verus!
