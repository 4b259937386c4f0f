use vstd::prelude::*;
use vstd::std_specs::cmp::{PartialEqSpec, PartialEqSpecImpl};

verus! {

/// Identifier of a particle type, as rules name their targets and products.
#[derive(Clone, Copy, Debug, PartialEq, Eq, Structural, Hash)]
pub struct ParticleTypeId {
    pub raw: usize,
}

impl ParticleTypeId {
    /// The identifier with the given raw value.
    pub fn from_raw(raw: usize) -> (id: ParticleTypeId)
        ensures
            id.raw == raw,
    {
        ParticleTypeId { raw }
    }
}

impl Default for ParticleTypeId {
    /// The identifier whose raw value is zero.
    fn default() -> (id: ParticleTypeId)
        ensures
            id.raw == 0,
    {
        ParticleTypeId { raw: 0 }
    }
}

/// The entity that stands for a registered particle type, by its bit pattern.
#[derive(Clone, Copy, Debug, PartialEq, Eq, Structural, Hash)]
pub struct TypeEntity {
    pub bits: u64,
}

/// A cell of the particle grid.
#[derive(Clone, Copy, Debug, PartialEq, Eq, Structural, Hash)]
pub struct GridPos {
    pub x: i32,
    pub y: i32,
}

impl GridPos {
    /// The cell at column `x`, row `y`.
    pub fn new(x: i32, y: i32) -> (p: GridPos)
        ensures
            p.x == x,
            p.y == y,
    {
        GridPos { x, y }
    }
}

/// What happens to one participant when a contact reaction fires.
#[derive(Clone, Copy, Debug, PartialEq, Eq, Structural, Hash)]
pub enum ContactOutcome {
    /// Keep the particle unchanged.
    Unchanged,
    /// Destroy the particle.
    Destroy,
    /// Replace the particle with the given type.
    Becomes(ParticleTypeId),
}

impl Default for ContactOutcome {
    /// A participant is left unchanged unless a rule says otherwise.
    fn default() -> (o: ContactOutcome)
        ensures
            o == ContactOutcome::Unchanged,
    {
        ContactOutcome::Unchanged
    }
}

/// A burst of extra particles spawned around the source when a rule fires: up to
/// `count` particles of type `particle`, into empty cells of the source's Moore
/// neighbourhood.
#[derive(Clone, Copy, Debug, PartialEq, Eq, Structural, Hash)]
pub struct ContactBurst {
    pub particle: ParticleTypeId,
    pub count: u8,
}

impl Default for ContactBurst {
    /// A burst of no particles of the default type.
    fn default() -> (b: ContactBurst)
        ensures
            b.particle.raw == 0,
            b.count == 0,
    {
        ContactBurst { particle: ParticleTypeId::default(), count: 0 }
    }
}

/// Bit pattern of the `f32` value `1.0`: the radius of immediate neighbours.
pub const DEFAULT_RADIUS_BITS: u32 = 0x3f80_0000u32;

/// `2^63`: the sign bit of an `f64` bit pattern.
pub const F64_SIGN_BIT: u64 = 0x8000_0000_0000_0000u64;

/// Bit pattern of `f64` positive infinity; patterns above it, sign aside, are NaN.
pub const F64_INFINITY_BITS: u64 = 0x7ff0_0000_0000_0000u64;

/// Bit pattern of the `f64` value `1.0`.
pub const F64_ONE_BITS: u64 = 0x3ff0_0000_0000_0000u64;

/// `2^31`: the sign bit of an `f32` bit pattern.
pub const F32_SIGN_BIT: u32 = 0x8000_0000u32;

/// Bit pattern of `f32` positive infinity; patterns above it, sign aside, are NaN.
pub const F32_INFINITY_BITS: u32 = 0x7f80_0000u32;

/// The `f64` with bit pattern `b` is NaN.
pub open spec fn f64_bits_nan(b: u64) -> bool {
    b % F64_SIGN_BIT > F64_INFINITY_BITS
}

/// The `f32` with bit pattern `b` is NaN.
pub open spec fn f32_bits_nan(b: u32) -> bool {
    b % F32_SIGN_BIT > F32_INFINITY_BITS
}

/// The `f64` values with bit patterns `a` and `b` are equal as `f64` compares them:
/// neither is NaN, and they are the same value, `+0.0` and `-0.0` being equal.
pub open spec fn f64_bits_eq(a: u64, b: u64) -> bool {
    &&& !f64_bits_nan(a)
    &&& !f64_bits_nan(b)
    &&& (a == b || (a % F64_SIGN_BIT == 0 && b % F64_SIGN_BIT == 0))
}

/// The `f32` values with bit patterns `a` and `b` are equal as `f32` compares them.
pub open spec fn f32_bits_eq(a: u32, b: u32) -> bool {
    &&& !f32_bits_nan(a)
    &&& !f32_bits_nan(b)
    &&& (a == b || (a % F32_SIGN_BIT == 0 && b % F32_SIGN_BIT == 0))
}

/// The `f64` with bit pattern `b` is at most `0.0` (`-0.0` and `-inf` included).
pub open spec fn f64_bits_at_most_zero(b: u64) -> bool {
    !f64_bits_nan(b) && (b == 0 || b >= F64_SIGN_BIT)
}

/// The `f64` with bit pattern `b` is at least `1.0` (`+inf` included).
pub open spec fn f64_bits_at_least_one(b: u64) -> bool {
    F64_ONE_BITS <= b <= F64_INFINITY_BITS
}

/// Compare two `f64` values, given by their bit patterns, as `f64` does.
pub fn f64_bits_equal(a: u64, b: u64) -> (r: bool)
    ensures
        r == f64_bits_eq(a, b),
{
    let ma = a % F64_SIGN_BIT;
    let mb = b % F64_SIGN_BIT;
    ma <= F64_INFINITY_BITS && mb <= F64_INFINITY_BITS && (a == b || (ma == 0 && mb == 0))
}

/// Compare two `f32` values, given by their bit patterns, as `f32` does.
pub fn f32_bits_equal(a: u32, b: u32) -> (r: bool)
    ensures
        r == f32_bits_eq(a, b),
{
    let ma = a % F32_SIGN_BIT;
    let mb = b % F32_SIGN_BIT;
    ma <= F32_INFINITY_BITS && mb <= F32_INFINITY_BITS && (a == b || (ma == 0 && mb == 0))
}

/// A single contact reaction rule.
///
/// `chance_bits` is the bit pattern of the `f64` probability per contact per frame,
/// and `radius_bits` that of the `f32` radius within which the target is looked for;
/// the library carries both through unchanged.
#[derive(Clone, Copy, Debug)]
pub struct ContactRule {
    /// Particle type this rule reacts with on contact.
    pub target: ParticleTypeId,
    /// What happens to the source particle when the rule fires.
    pub source_outcome: ContactOutcome,
    /// What happens to the target particle when the rule fires.
    pub target_outcome: ContactOutcome,
    pub chance_bits: u64,
    pub radius_bits: u32,
    /// Extra particles spawned around the source when the rule fires.
    pub burst: Option<ContactBurst>,
}

/// Two rules are equal when their types, outcomes and bursts are, and their chances
/// and radii are equal as floating-point numbers (so `0.0 == -0.0`, and a rule with a
/// NaN chance or radius equals no rule).
pub open spec fn rule_eq(a: ContactRule, b: ContactRule) -> bool {
    &&& a.target == b.target
    &&& a.source_outcome == b.source_outcome
    &&& a.target_outcome == b.target_outcome
    &&& f64_bits_eq(a.chance_bits, b.chance_bits)
    &&& f32_bits_eq(a.radius_bits, b.radius_bits)
    &&& a.burst == b.burst
}

impl PartialEq for ContactRule {
    fn eq(&self, other: &ContactRule) -> (r: bool) {
        let same_burst = match (self.burst, other.burst) {
            (Some(x), Some(y)) => x.particle == y.particle && x.count == y.count,
            (None, None) => true,
            _ => false,
        };
        self.target == other.target && self.source_outcome == other.source_outcome
            && self.target_outcome == other.target_outcome && f64_bits_equal(
            self.chance_bits,
            other.chance_bits,
        ) && f32_bits_equal(self.radius_bits, other.radius_bits) && same_burst
    }
}

impl PartialEqSpecImpl for ContactRule {
    open spec fn obeys_eq_spec() -> bool {
        true
    }

    open spec fn eq_spec(&self, other: &ContactRule) -> bool {
        rule_eq(*self, *other)
    }
}

/// Two rules are equal exactly when they have the same target, the same two outcomes
/// and the same burst (particle and count), and their chances and their radii are equal
/// as floating-point numbers.
pub proof fn law_rule_equality_compares_every_field(a: ContactRule, b: ContactRule)
    ensures
        PartialEqSpec::eq_spec(&a, &b) <==> {
            &&& a.target == b.target
            &&& a.source_outcome == b.source_outcome
            &&& a.target_outcome == b.target_outcome
            &&& a.burst == b.burst
            &&& f64_bits_eq(a.chance_bits, b.chance_bits)
            &&& f32_bits_eq(a.radius_bits, b.radius_bits)
        },
        PartialEqSpec::eq_spec(&a, &b) ==> (a.burst matches Some(x) ==> b.burst matches Some(y) && x.particle
            == y.particle && x.count == y.count),
        PartialEqSpec::eq_spec(&a, &b) <==> PartialEqSpec::eq_spec(&b, &a),
{
}

/// Float equality on bit patterns: a value that is not NaN equals itself, `+0.0`
/// equals `-0.0`, NaN equals nothing, and two other values are equal only when their
/// bit patterns are.
pub proof fn law_float_bits_equality(a: u64, b: u64, x: u32, y: u32)
    ensures
        f64_bits_eq(a, a) <==> !f64_bits_nan(a),
        f64_bits_eq(0, F64_SIGN_BIT),
        f64_bits_nan(a) ==> !f64_bits_eq(a, b) && !f64_bits_eq(b, a),
        f64_bits_eq(a, b) && a != b ==> a % F64_SIGN_BIT == 0 && b % F64_SIGN_BIT == 0,
        f32_bits_eq(x, x) <==> !f32_bits_nan(x),
        f32_bits_eq(0, F32_SIGN_BIT),
        f32_bits_nan(x) ==> !f32_bits_eq(x, y) && !f32_bits_eq(y, x),
        f32_bits_eq(x, y) && x != y ==> x % F32_SIGN_BIT == 0 && y % F32_SIGN_BIT == 0,
{
}

impl ContactRule {
    /// The radius a rule gets when none is given: `1.0`, immediate neighbours.
    pub fn default_radius_bits() -> (bits: u32)
        ensures
            bits == DEFAULT_RADIUS_BITS,
    {
        DEFAULT_RADIUS_BITS
    }
}

impl Default for ContactRule {
    /// A rule on the default type that never fires (chance `0.0`), leaves both
    /// participants unchanged, has radius `1.0` and no burst.
    fn default() -> (r: ContactRule)
        ensures
            r.target.raw == 0,
            r.source_outcome == ContactOutcome::Unchanged,
            r.target_outcome == ContactOutcome::Unchanged,
            r.chance_bits == 0,
            r.radius_bits == DEFAULT_RADIUS_BITS,
            r.burst.is_none(),
    {
        ContactRule {
            target: ParticleTypeId::default(),
            source_outcome: ContactOutcome::default(),
            target_outcome: ContactOutcome::default(),
            chance_bits: 0,
            radius_bits: Self::default_radius_bits(),
            burst: None,
        }
    }
}

} // verus!
