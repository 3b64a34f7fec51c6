//! The intent language: declarative goals with hard constraints, soft
//! preferences and an expiration condition.
//!
//! An intent is immutable once created and is validated at construction:
//! a malformed intent (a drawdown bound outside `[0, 1]`, two conflicting
//! drawdown bounds, or an oversized rule list) is rejected with a
//! [`ValidationError`] and never silently coerced.

use vstd::prelude::*;
use crate::MAX_RULES;
use crate::SCALE;

verus! {

/// Decentralized exchanges that can be named in an intent's constraints.
#[derive(Debug, Clone, Copy, PartialEq, Eq, Hash, Structural)]
pub enum Dex {
    UniswapV3,
    CurveFi,
    PancakeSwap,
}

/// A hard requirement: any execution plan violating a constraint is
/// inadmissible for the intent.
#[derive(Debug, Clone, PartialEq)]
pub enum Constraint {
    /// Maximum portfolio drawdown allowed, in micro-units of a fraction
    /// (50_000 for 5%). Valid bounds lie in `[0, SCALE]`.
    MaxDrawdown(u64),
    /// The exchanges that a plan may use, exhaustively.
    AllowedDexes(Vec<Dex>),
    /// A named custom constraint, evaluated against the attributes an
    /// externally registered predicate has granted the plan.
    Custom(String),
}

/// A soft requirement: contributes to the ranking score of a plan, never
/// to its admissibility.
#[derive(Debug, Clone, PartialEq, Eq, Hash)]
pub enum Preference {
    /// Prefer plans resistant to maximal extractable value.
    MevResistant,
    /// Prefer carbon-neutral plans.
    CarbonNeutral,
    /// A named custom preference.
    Custom(String),
}

/// When an intent stops being eligible for matching.
#[derive(Debug, Clone, Copy, PartialEq, Eq, Hash, Structural)]
pub enum Expiration {
    /// The intent expires as soon as the block height reaches this value.
    AtBlock(u64),
    /// The intent never expires.
    Never,
}

/// Why an intent was rejected at construction.
#[derive(Debug, Clone, Copy, PartialEq, Eq, Structural)]
pub enum ValidationError {
    /// More than [`MAX_RULES`] constraints.
    TooManyConstraints,
    /// More than [`MAX_RULES`] preferences.
    TooManyPreferences,
    /// A drawdown bound above `SCALE` (that is, above 1.0).
    DrawdownOutOfRange,
    /// Two drawdown bounds with different values.
    ConflictingDrawdowns,
}

/// A single constraint is well formed: a drawdown bound is a fraction.
pub open spec fn constraint_ok(c: Constraint) -> bool {
    match c {
        Constraint::MaxDrawdown(d) => d <= SCALE,
        _ => true,
    }
}

/// Two constraints do not contradict each other: two drawdown bounds must
/// agree on the value.
pub open spec fn constraints_consistent(a: Constraint, b: Constraint) -> bool {
    match (a, b) {
        (Constraint::MaxDrawdown(x), Constraint::MaxDrawdown(y)) => x == y,
        _ => true,
    }
}

/// Scan of a constraint list, front to back, carrying the first drawdown
/// bound seen so far: reports the first validation error, if any.
pub open spec fn spec_scan(cs: Seq<Constraint>, first: Option<u64>) -> Option<ValidationError>
    decreases cs.len(),
{
    if cs.len() == 0 {
        None
    } else {
        match cs[0] {
            Constraint::MaxDrawdown(d) => if d > SCALE {
                Some(ValidationError::DrawdownOutOfRange)
            } else if first matches Some(x) && x != d {
                Some(ValidationError::ConflictingDrawdowns)
            } else {
                spec_scan(cs.skip(1), Some(d))
            },
            _ => spec_scan(cs.skip(1), first),
        }
    }
}

/// The validation verdict on a prospective intent: the first error found,
/// checking the list sizes first and then scanning the constraints.
pub open spec fn spec_validate(cs: Seq<Constraint>, ps: Seq<Preference>) -> Option<
    ValidationError,
> {
    if cs.len() > MAX_RULES {
        Some(ValidationError::TooManyConstraints)
    } else if ps.len() > MAX_RULES {
        Some(ValidationError::TooManyPreferences)
    } else {
        spec_scan(cs, None)
    }
}

/// What the scan enforces: every constraint well formed, every pair
/// consistent, and every constraint consistent with the carried bound.
spec fn scan_ok(cs: Seq<Constraint>, first: Option<u64>) -> bool {
    &&& forall|i: int| 0 <= i < cs.len() ==> #[trigger] constraint_ok(cs[i])
    &&& forall|i: int, j: int|
        0 <= i < j < cs.len() ==> #[trigger] constraints_consistent(cs[i], cs[j])
    &&& forall|i: int, x: u64|
        first == Some(x) && 0 <= i < cs.len() ==> #[trigger] constraints_consistent(
            Constraint::MaxDrawdown(x),
            cs[i],
        )
}

/// The scan finds no error exactly when [`scan_ok`] holds.
proof fn lemma_scan_none(cs: Seq<Constraint>, first: Option<u64>)
    ensures
        spec_scan(cs, first) is None <==> scan_ok(cs, first),
    decreases cs.len(),
{
    if cs.len() > 0 {
        let rest = cs.skip(1);
        assert(forall|i: int| 0 <= i < rest.len() ==> rest[i] == cs[i + 1]);
        match cs[0] {
            Constraint::MaxDrawdown(d) => {
                if d > SCALE {
                    assert(!constraint_ok(cs[0]));
                    assert(!scan_ok(cs, first));
                } else {
                    let conflicting = match first {
                        Some(x) => x != d,
                        None => false,
                    };
                    if conflicting {
                        match first {
                            Some(x) => {
                                assert(!constraints_consistent(
                                    Constraint::MaxDrawdown(x),
                                    cs[0],
                                ));
                            },
                            None => {},
                        }
                        assert(!scan_ok(cs, first));
                    } else {
                        lemma_scan_none(rest, Some(d));
                        assert(spec_scan(cs, first) == spec_scan(rest, Some(d)));
                        if spec_scan(rest, Some(d)) is None {
                            assert(scan_ok(rest, Some(d)));
                            assert forall|i: int| 0 <= i < cs.len() implies #[trigger] constraint_ok(
                                cs[i],
                            ) by {
                                if i > 0 {
                                    assert(constraint_ok(rest[i - 1]));
                                }
                            }
                            assert forall|i: int, j: int| 0 <= i < j < cs.len() implies #[trigger]
                                constraints_consistent(cs[i], cs[j]) by {
                                if i == 0 {
                                    assert(constraints_consistent(
                                        Constraint::MaxDrawdown(d),
                                        rest[j - 1],
                                    ));
                                } else {
                                    assert(constraints_consistent(rest[i - 1], rest[j - 1]));
                                }
                            }
                            assert forall|i: int, x: u64|
                                first == Some(x) && 0 <= i < cs.len() implies #[trigger]
                                constraints_consistent(Constraint::MaxDrawdown(x), cs[i]) by {
                                if i > 0 {
                                    assert(constraints_consistent(
                                        Constraint::MaxDrawdown(d),
                                        rest[i - 1],
                                    ));
                                }
                            }
                            assert(scan_ok(cs, first));
                        } else {
                            if scan_ok(cs, first) {
                                assert forall|i: int| 0 <= i < rest.len() implies #[trigger]
                                    constraint_ok(rest[i]) by {
                                    assert(constraint_ok(cs[i + 1]));
                                }
                                assert forall|i: int, j: int| 0 <= i < j < rest.len() implies
                                    #[trigger] constraints_consistent(rest[i], rest[j]) by {
                                    assert(constraints_consistent(cs[i + 1], cs[j + 1]));
                                }
                                assert forall|i: int, x: u64|
                                    Some(d) == Some::<u64>(x) && 0 <= i < rest.len() implies
                                    #[trigger] constraints_consistent(
                                        Constraint::MaxDrawdown(x),
                                        rest[i],
                                    ) by {
                                    assert(constraints_consistent(cs[0], cs[i + 1]));
                                }
                                assert(scan_ok(rest, Some(d)));
                                assert(false);
                            }
                        }
                    }
                }
            },
            _ => {
                lemma_scan_none(rest, first);
                assert(spec_scan(cs, first) == spec_scan(rest, first));
                if spec_scan(rest, first) is None {
                    assert(scan_ok(rest, first));
                    assert forall|i: int| 0 <= i < cs.len() implies #[trigger] constraint_ok(
                        cs[i],
                    ) by {
                        if i > 0 {
                            assert(constraint_ok(rest[i - 1]));
                        }
                    }
                    assert forall|i: int, j: int| 0 <= i < j < cs.len() implies #[trigger]
                        constraints_consistent(cs[i], cs[j]) by {
                        if i == 0 {
                            assert(constraints_consistent(cs[0], cs[j]));
                        } else {
                            assert(constraints_consistent(rest[i - 1], rest[j - 1]));
                        }
                    }
                    assert forall|i: int, x: u64|
                        first == Some(x) && 0 <= i < cs.len() implies #[trigger]
                        constraints_consistent(Constraint::MaxDrawdown(x), cs[i]) by {
                        if i > 0 {
                            assert(constraints_consistent(
                                Constraint::MaxDrawdown(x),
                                rest[i - 1],
                            ));
                        }
                    }
                    assert(scan_ok(cs, first));
                } else {
                    if scan_ok(cs, first) {
                        assert forall|i: int| 0 <= i < rest.len() implies #[trigger] constraint_ok(
                            rest[i],
                        ) by {
                            assert(constraint_ok(cs[i + 1]));
                        }
                        assert forall|i: int, j: int| 0 <= i < j < rest.len() implies #[trigger]
                            constraints_consistent(rest[i], rest[j]) by {
                            assert(constraints_consistent(cs[i + 1], cs[j + 1]));
                        }
                        assert forall|i: int, x: u64|
                            first == Some(x) && 0 <= i < rest.len() implies #[trigger]
                            constraints_consistent(Constraint::MaxDrawdown(x), rest[i]) by {
                            assert(constraints_consistent(
                                Constraint::MaxDrawdown(x),
                                cs[i + 1],
                            ));
                        }
                        assert(scan_ok(rest, first));
                        assert(false);
                    }
                }
            },
        }
    }
}

/// The core intent structure: it declaratively represents a user's goal.
#[derive(Debug, Clone, PartialEq)]
pub struct Intent {
    /// A human-readable name for the intent, like "YieldFarming".
    pub name: String,
    /// The primary goal of the intent, expressed as a string.
    pub target: String,
    /// Hard constraints that must be met.
    pub constraints: Vec<Constraint>,
    /// Soft preferences to guide ranking.
    pub preferences: Vec<Preference>,
    /// The condition under which the intent expires.
    pub expiration: Expiration,
}

impl Intent {
    /// The construction invariant: rule lists within bounds, every
    /// drawdown bound a fraction, and no two contradictory constraints.
    pub open spec fn wf(self) -> bool {
        &&& self.constraints@.len() <= MAX_RULES
        &&& self.preferences@.len() <= MAX_RULES
        &&& forall|i: int|
            0 <= i < self.constraints@.len() ==> #[trigger] constraint_ok(self.constraints@[i])
        &&& forall|i: int, j: int|
            0 <= i < j < self.constraints@.len() ==> #[trigger] constraints_consistent(
                self.constraints@[i],
                self.constraints@[j],
            )
    }

    /// Checks this intent against the construction invariant and reports
    /// the first violation, if any: exactly the verdict of
    /// [`spec_validate`], and `Ok` exactly on well-formed intents.
    pub fn validate(&self) -> (r: Result<(), ValidationError>)
        ensures
            r matches Ok(u) ==> spec_validate(self.constraints@, self.preferences@) is None,
            r matches Err(e) ==> spec_validate(self.constraints@, self.preferences@) == Some(e),
            r is Ok <==> self.wf(),
    {
        proof {
            lemma_scan_none(self.constraints@, None::<u64>);
        }
        if self.constraints.len() > MAX_RULES {
            return Err(ValidationError::TooManyConstraints);
        }
        if self.preferences.len() > MAX_RULES {
            return Err(ValidationError::TooManyPreferences);
        }
        let n = self.constraints.len();
        let mut first: Option<u64> = None;
        let mut i: usize = 0;
        assert(self.constraints@.skip(0) =~= self.constraints@);
        assert(scan_ok(self.constraints@, None) <==> self.wf());
        while i < n
            invariant
                i <= n,
                n == self.constraints@.len(),
                spec_validate(self.constraints@, self.preferences@) == spec_scan(
                    self.constraints@.skip(i as int),
                    first,
                ),
                spec_validate(self.constraints@, self.preferences@) is None <==> self.wf(),
            decreases n - i,
        {
            let ghost pre = self.constraints@.skip(i as int);
            assert(pre[0] == self.constraints@[i as int]);
            assert(pre.skip(1) =~= self.constraints@.skip(i + 1));
            match &self.constraints[i] {
                Constraint::MaxDrawdown(d) => {
                    assert(pre[0] == Constraint::MaxDrawdown(*d));
                    if *d > SCALE {
                        assert(spec_scan(pre, first) == Some(ValidationError::DrawdownOutOfRange));
                        return Err(ValidationError::DrawdownOutOfRange);
                    }
                    match first {
                        Some(x) => {
                            if x != *d {
                                assert(spec_scan(pre, first) == Some(
                                    ValidationError::ConflictingDrawdowns,
                                ));
                                return Err(ValidationError::ConflictingDrawdowns);
                            }
                        },
                        None => {
                        },
                    }
                    assert(spec_scan(pre, first) == spec_scan(pre.skip(1), Some(*d)));
                    first = Some(*d);
                },
                _ => {
                    assert(spec_scan(pre, first) == spec_scan(pre.skip(1), first));
                },
            }
            i = i + 1;
        }
        assert(self.constraints@.skip(n as int) =~= Seq::<Constraint>::empty());
        Ok(())
    }

    /// Validated construction: returns the intent built from the given
    /// parts exactly when they pass validation, and the first validation
    /// error otherwise.
    pub fn new(
        name: String,
        target: String,
        constraints: Vec<Constraint>,
        preferences: Vec<Preference>,
        expiration: Expiration,
    ) -> (r: Result<Intent, ValidationError>)
        ensures
            r is Ok <==> spec_validate(constraints@, preferences@) is None,
            r matches Ok(intent) ==> {
                &&& intent.wf()
                &&& intent.name == name
                &&& intent.target == target
                &&& intent.constraints == constraints
                &&& intent.preferences == preferences
                &&& intent.expiration == expiration
            },
            r matches Err(e) ==> spec_validate(constraints@, preferences@) == Some(e),
    {
        let intent = Intent { name, target, constraints, preferences, expiration };
        match intent.validate() {
            Ok(_) => Ok(intent),
            Err(e) => Err(e),
        }
    }

    /// The example yield-farming intent: a 5% drawdown bound, three
    /// allowed exchanges, two preferences, and an expiration 5000 blocks
    /// past the given height.
    pub fn new_yield_farming_intent(current_block_height: u64) -> (r: Intent)
        requires
            current_block_height + 5000 <= u64::MAX,
        ensures
            r.wf(),
            r.name@ == "YieldFarming"@,
            r.target@ == "Portfolio ROI >= 15% APY"@,
            r.constraints@.len() == 2,
            r.constraints@[0] == Constraint::MaxDrawdown(50000),
            r.constraints@[1] matches Constraint::AllowedDexes(ds) && ds@ =~= seq![
                Dex::UniswapV3,
                Dex::CurveFi,
                Dex::PancakeSwap,
            ],
            r.preferences@ =~= seq![Preference::MevResistant, Preference::CarbonNeutral],
            r.expiration == Expiration::AtBlock((current_block_height + 5000) as u64),
    {
        let mut dexes: Vec<Dex> = Vec::new();
        dexes.push(Dex::UniswapV3);
        dexes.push(Dex::CurveFi);
        dexes.push(Dex::PancakeSwap);
        let mut constraints: Vec<Constraint> = Vec::new();
        constraints.push(Constraint::MaxDrawdown(50000));
        constraints.push(Constraint::AllowedDexes(dexes));
        let mut preferences: Vec<Preference> = Vec::new();
        preferences.push(Preference::MevResistant);
        preferences.push(Preference::CarbonNeutral);
        let r = Intent {
            name: String::from_str("YieldFarming"),
            target: String::from_str("Portfolio ROI >= 15% APY"),
            constraints,
            preferences,
            expiration: Expiration::AtBlock(current_block_height + 5000),
        };
        assert(constraint_ok(r.constraints@[0]));
        assert(constraint_ok(r.constraints@[1]));
        assert forall|i: int, j: int| 0 <= i < j < r.constraints@.len() implies
            #[trigger] constraints_consistent(r.constraints@[i], r.constraints@[j]) by {
            assert(i == 0 && j == 1);
        }
        r
    }
}

/// The ingestion entry point: accepts a batch of intents exactly when
/// every one of them passes validation, and otherwise rejects the whole
/// batch with the first intent's first validation error, never silently
/// coercing a malformed intent.
pub fn ingest(intents: Vec<Intent>) -> (r: Result<Vec<Intent>, ValidationError>)
    ensures
        r matches Ok(v) ==> v == intents,
        r is Ok <==> forall|i: int| 0 <= i < intents@.len() ==> (#[trigger] intents@[i]).wf(),
        r matches Err(e) ==> exists|i: int|
            0 <= i < intents@.len() && !(#[trigger] intents@[i]).wf() && spec_validate(
                intents@[i].constraints@,
                intents@[i].preferences@,
            ) == Some(e),
{
    let n = intents.len();
    let mut i: usize = 0;
    while i < n
        invariant
            i <= n,
            n == intents@.len(),
            forall|k: int| 0 <= k < i ==> (#[trigger] intents@[k]).wf(),
        decreases n - i,
    {
        match intents[i].validate() {
            Ok(_) => {},
            Err(e) => {
                return Err(e);
            },
        }
        i = i + 1;
    }
    Ok(intents)
}

} // verus!
