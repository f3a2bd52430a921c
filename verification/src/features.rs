//! GPU capability flags as a bitset. A kernel descriptor records the
//! features it requires; a device offers a feature set; the kernel may be
//! built only on a device whose set is a superset of the requirement.

use vstd::prelude::*;

verus! {

/// One named capability flag.
#[derive(Clone, Copy, PartialEq, Eq, Debug, Structural)]
pub enum Feature {
    Int8,
    Int16,
    Int64,
    Float16,
    Float64,
    Buffer8,
    Buffer16,
    PushConstant8,
    PushConstant16,
    SubgroupBasic,
    SubgroupVote,
    SubgroupArithmetic,
    SubgroupBallot,
    SubgroupShuffle,
    SubgroupShuffleRelative,
    SubgroupClustered,
    SubgroupQuad,
}

/// The bit each flag occupies.
pub open spec fn feature_bit(f: Feature) -> u32 {
    match f {
        Feature::Int8 => 0x1u32,
        Feature::Int16 => 0x2u32,
        Feature::Int64 => 0x4u32,
        Feature::Float16 => 0x8u32,
        Feature::Float64 => 0x10u32,
        Feature::Buffer8 => 0x100u32,
        Feature::Buffer16 => 0x200u32,
        Feature::PushConstant8 => 0x400u32,
        Feature::PushConstant16 => 0x800u32,
        Feature::SubgroupBasic => 0x10000u32,
        Feature::SubgroupVote => 0x20000u32,
        Feature::SubgroupArithmetic => 0x40000u32,
        Feature::SubgroupBallot => 0x80000u32,
        Feature::SubgroupShuffle => 0x100000u32,
        Feature::SubgroupShuffleRelative => 0x200000u32,
        Feature::SubgroupClustered => 0x400000u32,
        Feature::SubgroupQuad => 0x800000u32,
    }
}

/// All flags, in declaration order.
pub open spec fn feature_table() -> Seq<Feature> {
    seq![
        Feature::Int8,
        Feature::Int16,
        Feature::Int64,
        Feature::Float16,
        Feature::Float64,
        Feature::Buffer8,
        Feature::Buffer16,
        Feature::PushConstant8,
        Feature::PushConstant16,
        Feature::SubgroupBasic,
        Feature::SubgroupVote,
        Feature::SubgroupArithmetic,
        Feature::SubgroupBallot,
        Feature::SubgroupShuffle,
        Feature::SubgroupShuffleRelative,
        Feature::SubgroupClustered,
        Feature::SubgroupQuad,
    ]
}

/// The display name of each flag.
pub open spec fn feature_name(f: Feature) -> Seq<char> {
    match f {
        Feature::Int8 => "INT8"@,
        Feature::Int16 => "INT16"@,
        Feature::Int64 => "INT64"@,
        Feature::Float16 => "FLOAT16"@,
        Feature::Float64 => "FLOAT64"@,
        Feature::Buffer8 => "BUFFER8"@,
        Feature::Buffer16 => "BUFFER16"@,
        Feature::PushConstant8 => "PUSH_CONSTANT8"@,
        Feature::PushConstant16 => "PUSH_CONSTANT16"@,
        Feature::SubgroupBasic => "SUBGROUP_BASIC"@,
        Feature::SubgroupVote => "SUBGROUP_VOTE"@,
        Feature::SubgroupArithmetic => "SUBGROUP_ARITHMETIC"@,
        Feature::SubgroupBallot => "SUBGROUP_BALLOT"@,
        Feature::SubgroupShuffle => "SUBGROUP_SHUFFLE"@,
        Feature::SubgroupShuffleRelative => "SUBGROUP_SHUFFLE_RELATIVE"@,
        Feature::SubgroupClustered => "SUBGROUP_CLUSTERED"@,
        Feature::SubgroupQuad => "SUBGROUP_QUAD"@,
    }
}

/// A set of capability flags, packed into one 32-bit word.
#[derive(Clone, Copy, PartialEq, Eq, Debug, Structural)]
pub struct Features {
    pub bits: u32,
}

/// `a` contains `b` when every bit of `b` is set in `a`.
pub open spec fn spec_contains(a: Features, b: Features) -> bool {
    (a.bits | b.bits) == a.bits
}

/// The names of the contained flags, in declaration order.
pub open spec fn spec_feature_names(a: Features) -> Seq<Seq<char>> {
    feature_table().filter(|f: Feature| spec_contains(a, Features { bits: feature_bit(f) })).map(
        |i: int, f: Feature| feature_name(f),
    )
}

impl Features {
    /// The set holding exactly the given bits.
    pub fn new(bits: u32) -> (r: Features)
        ensures
            r.bits == bits,
    {
        Features { bits }
    }

    /// The empty set.
    pub fn empty() -> (r: Features)
        ensures
            r.bits == 0,
    {
        Features { bits: 0 }
    }

    /// The set holding one flag.
    pub fn from_flag(f: Feature) -> (r: Features)
        ensures
            r.bits == feature_bit(f),
    {
        match f {
            Feature::Int8 => Features { bits: 0x1 },
            Feature::Int16 => Features { bits: 0x2 },
            Feature::Int64 => Features { bits: 0x4 },
            Feature::Float16 => Features { bits: 0x8 },
            Feature::Float64 => Features { bits: 0x10 },
            Feature::Buffer8 => Features { bits: 0x100 },
            Feature::Buffer16 => Features { bits: 0x200 },
            Feature::PushConstant8 => Features { bits: 0x400 },
            Feature::PushConstant16 => Features { bits: 0x800 },
            Feature::SubgroupBasic => Features { bits: 0x10000 },
            Feature::SubgroupVote => Features { bits: 0x20000 },
            Feature::SubgroupArithmetic => Features { bits: 0x40000 },
            Feature::SubgroupBallot => Features { bits: 0x80000 },
            Feature::SubgroupShuffle => Features { bits: 0x100000 },
            Feature::SubgroupShuffleRelative => Features { bits: 0x200000 },
            Feature::SubgroupClustered => Features { bits: 0x400000 },
            Feature::SubgroupQuad => Features { bits: 0x800000 },
        }
    }

    /// Pure bitwise subset test: every flag of `other` is present in `self`.
    pub fn contains(self, other: Self) -> (r: bool)
        ensures
            r == spec_contains(self, other),
            r == forall|k: u32| k < 32 ==> ((other.bits >> k) & 1 == 1 ==> (self.bits >> k) & 1
                == 1),
    {
        proof {
            lemma_contains_is_subset(self, other);
        }
        (self.bits | other.bits) == self.bits
    }

    /// The union of two sets.
    pub fn union(self, other: Self) -> (r: Features)
        ensures
            r.bits == self.bits | other.bits,
    {
        Features { bits: self.bits | other.bits }
    }

    /// The names of the contained flags, in declaration order.
    pub fn name_iter(self) -> (r: Vec<&'static str>)
        ensures
            r@.map(|i: int, s: &'static str| s@) == spec_feature_names(self),
    {
        let table: Vec<(&'static str, Feature)> = vec![
            ("INT8", Feature::Int8),
            ("INT16", Feature::Int16),
            ("INT64", Feature::Int64),
            ("FLOAT16", Feature::Float16),
            ("FLOAT64", Feature::Float64),
            ("BUFFER8", Feature::Buffer8),
            ("BUFFER16", Feature::Buffer16),
            ("PUSH_CONSTANT8", Feature::PushConstant8),
            ("PUSH_CONSTANT16", Feature::PushConstant16),
            ("SUBGROUP_BASIC", Feature::SubgroupBasic),
            ("SUBGROUP_VOTE", Feature::SubgroupVote),
            ("SUBGROUP_ARITHMETIC", Feature::SubgroupArithmetic),
            ("SUBGROUP_BALLOT", Feature::SubgroupBallot),
            ("SUBGROUP_SHUFFLE", Feature::SubgroupShuffle),
            ("SUBGROUP_SHUFFLE_RELATIVE", Feature::SubgroupShuffleRelative),
            ("SUBGROUP_CLUSTERED", Feature::SubgroupClustered),
            ("SUBGROUP_QUAD", Feature::SubgroupQuad),
        ];
        proof {
            assert(table@.map(|i: int, e: (&'static str, Feature)| e.1) =~= feature_table());
            assert(forall|i: int|
                0 <= i < table@.len() ==> (#[trigger] table@[i]).0@ == feature_name(table@[i].1));
        }
        let mut r: Vec<&'static str> = Vec::new();
        let mut i: usize = 0;
        let ghost pred = |f: Feature| spec_contains(self, Features { bits: feature_bit(f) });
        while i < table.len()
            invariant
                i <= table.len(),
                table@.map(|i: int, e: (&'static str, Feature)| e.1) == feature_table(),
                forall|j: int|
                    0 <= j < table@.len() ==> (#[trigger] table@[j]).0@ == feature_name(
                        table@[j].1,
                    ),
                pred == (|f: Feature| spec_contains(self, Features { bits: feature_bit(f) })),
                r@.map(|k: int, s: &'static str| s@) == feature_table().take(i as int).filter(
                    pred,
                ).map(|k: int, f: Feature| feature_name(f)),
            decreases table.len() - i,
        {
            let (name, flag) = table[i];
            let mask = Features::from_flag(flag);
            let ghost t = feature_table().take(i as int);
            let ghost t1 = feature_table().take(i as int + 1);
            let ghost prev = r@.map(|k: int, s: &'static str| s@);
            proof {
                assert(t1 =~= t.push(flag));
                reveal(Seq::filter);
                assert(t.push(flag).drop_last() =~= t);
                assert(t1.filter(pred) == if pred(flag) {
                    t.filter(pred).push(flag)
                } else {
                    t.filter(pred)
                });
            }
            if self.contains(mask) {
                r.push(name);
                proof {
                    assert(r@.map(|k: int, s: &'static str| s@) =~= prev.push(name@));
                    assert(t.filter(pred).push(flag).map(|k: int, f: Feature| feature_name(f))
                        =~= t.filter(pred).map(|k: int, f: Feature| feature_name(f)).push(
                        feature_name(flag),
                    ));
                    assert(r@.map(|k: int, s: &'static str| s@) == t1.filter(pred).map(
                        |k: int, f: Feature| feature_name(f),
                    ));
                }
            } else {
                proof {
                    assert(r@.map(|k: int, s: &'static str| s@) == t1.filter(pred).map(
                        |k: int, f: Feature| feature_name(f),
                    ));
                }
            }
            i += 1;
        }
        proof {
            assert(feature_table().take(table@.len() as int) =~= feature_table());
        }
        r
    }
}

/// The subset test reads back as bit-level containment.
pub proof fn lemma_contains_is_subset(a: Features, b: Features)
    ensures
        spec_contains(a, b) == forall|k: u32|
            k < 32 ==> ((b.bits >> k) & 1 == 1 ==> (a.bits >> k) & 1 == 1),
{
    let x = a.bits;
    let y = b.bits;
    if spec_contains(a, b) {
        assert(forall|k: u32| k < 32 ==> ((y >> k) & 1 == 1 ==> (x >> k) & 1 == 1)) by {
            assert(forall|k: u32, p: u32, q: u32|
                (p | q) == p && k < 32 && (q >> k) & 1 == 1 ==> (p >> k) & 1 == 1) by (bit_vector);
        }
    }
    if forall|k: u32| k < 32 ==> ((y >> k) & 1 == 1 ==> (x >> k) & 1 == 1) {
        if (x | y) != x {
            let d = (x | y) ^ x;
            assert(d != 0) by (bit_vector)
                requires
                    (x | y) != x && d == (x | y) ^ x,
            ;
            let k = lemma_nonzero_u32_has_bit(d);
            assert((y >> k) & 1 == 1 && (x >> k) & 1 == 0) by (bit_vector)
                requires
                    d == (x | y) ^ x && k < 32 && (d >> k) & 1 == 1,
            ;
        }
    }
}

/// A nonzero word has at least one set bit; returns its index.
proof fn lemma_nonzero_u32_has_bit(z: u32) -> (k: u32)
    requires
        z != 0,
    ensures
        k < 32,
        (z >> k) & 1 == 1,
    decreases z,
{
    if z & 1 == 1 {
        assert((z >> 0u32) & 1 == 1) by (bit_vector)
            requires
                z & 1 == 1,
        ;
        0
    } else {
        assert(z >> 1u32 != 0 && z >> 1u32 < z) by (bit_vector)
            requires
                z != 0 && z & 1 != 1,
        ;
        let k0 = lemma_nonzero_u32_has_bit(z >> 1u32);
        assert((z >> (k0 + 1)) & 1 == 1 && k0 + 1 < 32) by (bit_vector)
            requires
                k0 < 32 && ((z >> 1u32) >> k0) & 1 == 1 && z & 1 != 1,
        ;
        (k0 + 1) as u32
    }
}

} // verus!
