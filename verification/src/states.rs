//! Dirty flags of the derived caches and the selection modes of the editor.

use crate::osm::{OsmToken, TargetServer};
use crate::osmchange::OsmChange;
use vstd::prelude::*;

verus! {

/// One derived cache of the bank.
#[derive(Debug, Copy, Clone, PartialEq, Eq, Structural)]
pub enum CacheFlag {
    NodeProjection,
    NodeOrphan,
    NodeDedup,
    NodeUsage,
    WayArea,
    WayMeshAndAreaSize,
    AreaSizeOrdered,
}

impl CacheFlag {
    /// Number of caches.
    pub const SIZE: usize = 7;

    /// The bit that stands for this cache in a `CacheBitflag`.
    pub open spec fn spec_bit(self) -> u8 {
        match self {
            CacheFlag::NodeProjection => 1u8,
            CacheFlag::NodeOrphan => 2u8,
            CacheFlag::NodeDedup => 4u8,
            CacheFlag::NodeUsage => 8u8,
            CacheFlag::WayArea => 16u8,
            CacheFlag::WayMeshAndAreaSize => 32u8,
            CacheFlag::AreaSizeOrdered => 64u8,
        }
    }

    #[verifier::when_used_as_spec(spec_bit)]
    pub fn bit(self) -> (b: u8)
        ensures
            b == self.spec_bit(),
    {
        match self {
            CacheFlag::NodeProjection => 1u8,
            CacheFlag::NodeOrphan => 2u8,
            CacheFlag::NodeDedup => 4u8,
            CacheFlag::NodeUsage => 8u8,
            CacheFlag::WayArea => 16u8,
            CacheFlag::WayMeshAndAreaSize => 32u8,
            CacheFlag::AreaSizeOrdered => 64u8,
        }
    }

    /// The position of this cache in tables that have one row per cache.
    pub open spec fn spec_index(self) -> usize {
        match self {
            CacheFlag::NodeProjection => 0usize,
            CacheFlag::NodeOrphan => 1usize,
            CacheFlag::NodeDedup => 2usize,
            CacheFlag::NodeUsage => 3usize,
            CacheFlag::WayArea => 4usize,
            CacheFlag::WayMeshAndAreaSize => 5usize,
            CacheFlag::AreaSizeOrdered => 6usize,
        }
    }

    #[verifier::when_used_as_spec(spec_index)]
    pub fn index(self) -> (i: usize)
        ensures
            i == self.spec_index(),
            i < CacheFlag::SIZE,
    {
        match self {
            CacheFlag::NodeProjection => 0usize,
            CacheFlag::NodeOrphan => 1usize,
            CacheFlag::NodeDedup => 2usize,
            CacheFlag::NodeUsage => 3usize,
            CacheFlag::WayArea => 4usize,
            CacheFlag::WayMeshAndAreaSize => 5usize,
            CacheFlag::AreaSizeOrdered => 6usize,
        }
    }

    /// The caches that this cache is computed from.
    pub open spec fn depends_on(self, other: CacheFlag) -> bool {
        match self {
            CacheFlag::NodeProjection => other == CacheFlag::NodeDedup,
            CacheFlag::NodeOrphan => false,
            CacheFlag::NodeDedup => other == CacheFlag::NodeOrphan || other == CacheFlag::WayArea,
            CacheFlag::NodeUsage => false,
            CacheFlag::WayArea => false,
            CacheFlag::WayMeshAndAreaSize => other == CacheFlag::WayArea,
            CacheFlag::AreaSizeOrdered => other == CacheFlag::NodeProjection || other
                == CacheFlag::WayArea,
        }
    }
}

impl CacheFlag {
    /// The place of this cache in the order of refreshing: a cache comes
    /// after the caches that it is computed from.
    pub open spec fn rank(self) -> nat {
        match self {
            CacheFlag::NodeUsage => 0,
            CacheFlag::NodeOrphan => 0,
            CacheFlag::WayArea => 0,
            CacheFlag::NodeDedup => 1,
            CacheFlag::NodeProjection => 2,
            CacheFlag::WayMeshAndAreaSize => 2,
            CacheFlag::AreaSizeOrdered => 3,
        }
    }
}

/// A cache has a higher rank than each cache that it is computed from, and
/// no cache is computed from itself.
pub proof fn lemma_rank_respects_dependencies(f: CacheFlag, g: CacheFlag)
    requires
        f.depends_on(g),
    ensures
        g.rank() < f.rank(),
        f != g,
{
}

/// Each cache has a bit of its own.
pub proof fn lemma_bits_distinct(a: CacheFlag, b: CacheFlag)
    ensures
        a.spec_bit() == b.spec_bit() <==> a == b,
{
}

proof fn lemma_set_bit(x: u8, a: u8, b: u8)
    requires
        a == 1 || a == 2 || a == 4 || a == 8 || a == 16 || a == 32 || a == 64,
        b == 1 || b == 2 || b == 4 || b == 8 || b == 16 || b == 32 || b == 64,
    ensures
        ((x | a) & b != 0) <==> ((x & b != 0) || a == b),
        ((x & !a) & b != 0) <==> ((x & b != 0) && a != b),
        (x ^ a) & b != 0 <==> ((x & b != 0) != (a == b)),
{
    assert(((x | a) & b != 0) <==> ((x & b != 0) || a == b)) by (bit_vector)
        requires
            a == 1 || a == 2 || a == 4 || a == 8 || a == 16 || a == 32 || a == 64,
            b == 1 || b == 2 || b == 4 || b == 8 || b == 16 || b == 32 || b == 64,
    ;
    assert(((x & !a) & b != 0) <==> ((x & b != 0) && a != b)) by (bit_vector)
        requires
            a == 1 || a == 2 || a == 4 || a == 8 || a == 16 || a == 32 || a == 64,
            b == 1 || b == 2 || b == 4 || b == 8 || b == 16 || b == 32 || b == 64,
    ;
    assert((x ^ a) & b != 0 <==> ((x & b != 0) != (a == b))) by (bit_vector)
        requires
            a == 1 || a == 2 || a == 4 || a == 8 || a == 16 || a == 32 || a == 64,
            b == 1 || b == 2 || b == 4 || b == 8 || b == 16 || b == 32 || b == 64,
    ;
}

/// The set of caches that wait for recomputation.
#[derive(Debug, Copy, Clone, PartialEq, Eq, Structural)]
pub struct CacheBitflag {
    bits: u8,
}

impl CacheBitflag {
    /// Whether `flag` is pending.
    pub closed spec fn has(self, flag: CacheFlag) -> bool {
        self.bits & flag.spec_bit() != 0
    }

    /// No cache is pending.
    pub open spec fn is_clean(self) -> bool {
        forall|f: CacheFlag| !self.has(f)
    }

    /// Every cache is pending.
    pub open spec fn is_all(self) -> bool {
        forall|f: CacheFlag| self.has(f)
    }

    /// The set in which nothing is pending.
    pub fn none() -> (r: Self)
        ensures
            r.is_clean(),
    {
        let r = CacheBitflag { bits: 0u8 };
        assert forall|f: CacheFlag| !r.has(f) by {
            let b = f.spec_bit();
            assert(0u8 & b == 0) by (bit_vector);
        }
        r
    }

    /// The set in which every cache is pending.
    pub fn all() -> (r: Self)
        ensures
            r.is_all(),
    {
        let r = CacheBitflag { bits: 0x7fu8 };
        assert forall|f: CacheFlag| r.has(f) by {
            let b = f.spec_bit();
            assert(b == 1 || b == 2 || b == 4 || b == 8 || b == 16 || b == 32 || b == 64);
            assert(0x7fu8 & b != 0) by (bit_vector)
                requires
                    b == 1 || b == 2 || b == 4 || b == 8 || b == 16 || b == 32 || b == 64,
            ;
        }
        r
    }

    pub fn contains(&self, flag: CacheFlag) -> (r: bool)
        ensures
            r == self.has(flag),
    {
        self.bits & flag.bit() != 0
    }

    /// Marks `flag` as pending.
    pub fn insert(&mut self, flag: CacheFlag)
        ensures
            forall|f: CacheFlag| final(self).has(f) == (old(self).has(f) || f == flag),
    {
        let ghost before = self.bits;
        self.bits = self.bits | flag.bit();
        assert forall|f: CacheFlag| self.has(f) == (old(self).has(f) || f == flag) by {
            lemma_set_bit(before, flag.spec_bit(), f.spec_bit());
            lemma_bits_distinct(flag, f);
        }
    }

    /// Marks `flag` as computed.
    pub fn remove(&mut self, flag: CacheFlag)
        ensures
            forall|f: CacheFlag| final(self).has(f) == (old(self).has(f) && f != flag),
    {
        let ghost before = self.bits;
        self.bits = self.bits & !flag.bit();
        assert forall|f: CacheFlag| self.has(f) == (old(self).has(f) && f != flag) by {
            lemma_set_bit(before, flag.spec_bit(), f.spec_bit());
            lemma_bits_distinct(flag, f);
        }
    }

    /// None of the caches that `flag` is computed from is pending.
    pub open spec fn deps_clean(self, flag: CacheFlag) -> bool {
        forall|g: CacheFlag| flag.depends_on(g) ==> !self.has(g)
    }

    /// Whether nothing is pending.
    pub fn is_empty(&self) -> (r: bool)
        ensures
            r == self.is_clean(),
    {
        let bits = self.bits;
        proof {
            if bits & 0x7fu8 == 0 {
                assert forall|f: CacheFlag| !self.has(f) by {
                    let b = f.spec_bit();
                    assert(bits & b == 0) by (bit_vector)
                        requires
                            bits & 0x7fu8 == 0,
                            b == 1 || b == 2 || b == 4 || b == 8 || b == 16 || b == 32 || b == 64,
                    ;
                }
            } else {
                assert(bits & 1 != 0 || bits & 2 != 0 || bits & 4 != 0 || bits & 8 != 0 || bits & 16
                    != 0 || bits & 32 != 0 || bits & 64 != 0) by (bit_vector)
                    requires
                        bits & 0x7fu8 != 0,
                ;
                assert(self.has(CacheFlag::NodeProjection) || self.has(CacheFlag::NodeOrphan)
                    || self.has(CacheFlag::NodeDedup) || self.has(CacheFlag::NodeUsage) || self.has(
                    CacheFlag::WayArea,
                ) || self.has(CacheFlag::WayMeshAndAreaSize) || self.has(
                    CacheFlag::AreaSizeOrdered,
                ));
            }
        }
        bits & 0x7fu8 == 0
    }
}

impl Default for CacheBitflag {
    fn default() -> (r: Self)
        ensures
            r.is_clean(),
    {
        CacheBitflag::none()
    }
}

/// A kind of element that the pointer can pick.
#[derive(Debug, Copy, Clone, PartialEq, Eq, Structural)]
pub enum SelectionFlag {
    Nodes,
    Ways,
    Areas,
}

impl SelectionFlag {
    /// The bit that stands for this kind in a `SelectionBitflag`.
    pub open spec fn spec_bit(self) -> u8 {
        match self {
            SelectionFlag::Nodes => 1u8,
            SelectionFlag::Ways => 2u8,
            SelectionFlag::Areas => 4u8,
        }
    }

    #[verifier::when_used_as_spec(spec_bit)]
    pub fn bit(self) -> (b: u8)
        ensures
            b == self.spec_bit(),
    {
        match self {
            SelectionFlag::Nodes => 1u8,
            SelectionFlag::Ways => 2u8,
            SelectionFlag::Areas => 4u8,
        }
    }

    /// The name shown for this kind.
    pub fn label(self) -> (s: &'static str)
        ensures
            s@ == (match self {
                SelectionFlag::Nodes => "Nodes"@,
                SelectionFlag::Ways => "Ways"@,
                SelectionFlag::Areas => "Areas"@,
            }),
    {
        match self {
            SelectionFlag::Nodes => "Nodes",
            SelectionFlag::Ways => "Ways",
            SelectionFlag::Areas => "Areas",
        }
    }
}

/// The kinds of element that the pointer can pick at the moment.
#[derive(Debug, Copy, Clone, PartialEq, Eq, Structural)]
pub struct SelectionBitflag {
    bits: u8,
}

impl SelectionBitflag {
    /// Whether `flag` can be picked.
    pub closed spec fn has(self, flag: SelectionFlag) -> bool {
        self.bits & flag.spec_bit() != 0
    }

    /// Nodes and ways can be picked, areas cannot.
    pub fn nodes_and_ways() -> (r: Self)
        ensures
            r.has(SelectionFlag::Nodes),
            r.has(SelectionFlag::Ways),
            !r.has(SelectionFlag::Areas),
    {
        assert(3u8 & 1u8 != 0 && 3u8 & 2u8 != 0 && 3u8 & 4u8 == 0) by (bit_vector);
        SelectionBitflag { bits: 3u8 }
    }

    pub fn contains(&self, flag: SelectionFlag) -> (r: bool)
        ensures
            r == self.has(flag),
    {
        self.bits & flag.bit() != 0
    }

    /// Switches `flag` on where it is off and off where it is on.
    pub fn toggle(&mut self, flag: SelectionFlag)
        ensures
            forall|f: SelectionFlag| final(self).has(f) == (old(self).has(f) != (f == flag)),
    {
        let ghost before = self.bits;
        self.bits = self.bits ^ flag.bit();
        assert forall|f: SelectionFlag| self.has(f) == (old(self).has(f) != (f == flag)) by {
            lemma_set_bit(before, flag.spec_bit(), f.spec_bit());
        }
    }
}

impl Default for SelectionBitflag {
    fn default() -> (r: Self)
        ensures
            r.has(SelectionFlag::Nodes),
            r.has(SelectionFlag::Ways),
            !r.has(SelectionFlag::Areas),
    {
        SelectionBitflag::nodes_and_ways()
    }
}

/// What the upload page holds: the upload, its text, and how the opening
/// of a changeset went, once it was asked for.
pub struct UploaderState {
    pub osmchange: OsmChange,
    pub osmchange_text: String,
    pub changeset_creation: Option<Result<u32, String>>,
}

impl Default for UploaderState {
    fn default() -> (r: Self)
        ensures
            r.osmchange.modify.is_none(),
            r.osmchange_text@ == Seq::<char>::empty(),
            r.changeset_creation.is_none(),
    {
        UploaderState {
            osmchange: OsmChange::default(),
            osmchange_text: String::new(),
            changeset_creation: None,
        }
    }
}

impl UploaderState {
    /// Takes in the answer to the opening of a changeset.
    pub fn receive_changeset(&mut self, result: Result<u32, String>)
        ensures
            final(self).changeset_creation == Some(result),
            final(self).osmchange == old(self).osmchange,
            final(self).osmchange_text == old(self).osmchange_text,
    {
        self.changeset_creation = Some(result);
    }
}

/// What the sign-in page holds: for each server how the asking for leave
/// went, the code that the user typed, and whether an answer is awaited.
pub struct AuthenticatorState {
    pub token: [Option<Result<OsmToken, String>>; 2],
    pub authorization_code: String,
    pub request_pending: bool,
}

impl Default for AuthenticatorState {
    fn default() -> (r: Self)
        ensures
            r.token@[0].is_none(),
            r.token@[1].is_none(),
            r.authorization_code@ == Seq::<char>::empty(),
            !r.request_pending,
    {
        AuthenticatorState {
            token: [None, None],
            authorization_code: String::new(),
            request_pending: false,
        }
    }
}

impl AuthenticatorState {
    /// Takes in the answer of `target_server` to the asking for leave; no
    /// answer is awaited after that.
    pub fn receive_token(&mut self, token: Result<OsmToken, String>, target_server: TargetServer)
        ensures
            final(self).token@ == old(self).token@.update(
                (match target_server {
                    TargetServer::OpenStreetMap => 0int,
                    TargetServer::OpenStreetMapDev => 1int,
                }),
                Some(token),
            ),
            !final(self).request_pending,
            final(self).authorization_code == old(self).authorization_code,
    {
        let i = target_server.index();
        self.token[i] = Some(token);
        self.request_pending = false;
    }

    /// Whether `target_server` has given leave.
    pub fn is_authenticated(&self, target_server: TargetServer) -> (r: bool)
        ensures
            r == (self.token@[(match target_server {
                TargetServer::OpenStreetMap => 0int,
                TargetServer::OpenStreetMapDev => 1int,
            })] matches Some(Ok(_))),
    {
        match &self.token[target_server.index()] {
            Some(Ok(_)) => true,
            _ => false,
        }
    }
}

} // verus!
