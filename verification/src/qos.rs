//! QoS profile rules: validity, default substitution, and the canonical
//! colon/comma-separated string form used inside discovery keys.
//!
//! The string grammar is
//! `reliability:durability:history,depth:deadline_sec,deadline_nsec:`
//! `lifespan_sec,lifespan_nsec:liveliness,lease_sec,lease_nsec`, where a
//! field equal to the resolved default renders as the empty string and an
//! empty (or unparsable) field parses back to the default.

use vstd::prelude::*;

use crate::text::dec_digits;
use crate::text::join_char;
use crate::text::parse_dec;
use crate::text::parse_u32_str;
use crate::text::parse_u64_str;
use crate::text::parse_usize_str;
use crate::text::seq_views;
use crate::text::spec_join;
use crate::text::spec_split;
use crate::text::split_char;
use crate::text::to_dec_string;

verus! {

pub const HISTORY_SYSTEM_DEFAULT: u32 = 0;

pub const HISTORY_KEEP_LAST: u32 = 1;

pub const HISTORY_KEEP_ALL: u32 = 2;

pub const HISTORY_UNKNOWN: u32 = 3;

pub const RELIABILITY_SYSTEM_DEFAULT: u32 = 0;

pub const RELIABILITY_RELIABLE: u32 = 1;

pub const RELIABILITY_BEST_EFFORT: u32 = 2;

pub const RELIABILITY_UNKNOWN: u32 = 3;

pub const DURABILITY_SYSTEM_DEFAULT: u32 = 0;

pub const DURABILITY_TRANSIENT_LOCAL: u32 = 1;

pub const DURABILITY_VOLATILE: u32 = 2;

pub const DURABILITY_UNKNOWN: u32 = 3;

pub const LIVELINESS_SYSTEM_DEFAULT: u32 = 0;

pub const LIVELINESS_AUTOMATIC: u32 = 1;

pub const LIVELINESS_MANUAL_BY_NODE: u32 = 2;

pub const LIVELINESS_MANUAL_BY_TOPIC: u32 = 3;

pub const LIVELINESS_UNKNOWN: u32 = 4;

pub const DEPTH_SYSTEM_DEFAULT: usize = 0;

/// A duration in whole seconds plus nanoseconds.
#[allow(non_camel_case_types)]
#[derive(Clone, Copy, PartialEq, Eq, Structural, Debug)]
pub struct rmw_time_t {
    pub sec: u64,
    pub nsec: u64,
}

/// A QoS profile: every enum-valued field is an ordinal below its "unknown"
/// sentinel when valid.
#[allow(non_camel_case_types)]
#[derive(Clone, Copy, PartialEq, Eq, Structural, Debug)]
pub struct rmw_qos_profile_t {
    pub history: u32,
    pub depth: usize,
    pub reliability: u32,
    pub durability: u32,
    pub deadline: rmw_time_t,
    pub lifespan: rmw_time_t,
    pub liveliness: u32,
    pub liveliness_lease_duration: rmw_time_t,
    pub avoid_ros_namespace_conventions: bool,
}

pub open spec fn spec_duration_infinite() -> rmw_time_t {
    rmw_time_t { sec: 9223372036, nsec: 854775807 }
}

/// The single static default profile every "system default" sentinel
/// resolves against.
pub open spec fn spec_default_qos() -> rmw_qos_profile_t {
    rmw_qos_profile_t {
        history: HISTORY_KEEP_LAST,
        depth: 10,
        reliability: RELIABILITY_RELIABLE,
        durability: DURABILITY_TRANSIENT_LOCAL,
        deadline: spec_duration_infinite(),
        lifespan: spec_duration_infinite(),
        liveliness: LIVELINESS_AUTOMATIC,
        liveliness_lease_duration: spec_duration_infinite(),
        avoid_ros_namespace_conventions: false,
    }
}

pub fn duration_infinite() -> (t: rmw_time_t)
    ensures
        t == spec_duration_infinite(),
{
    rmw_time_t { sec: 9223372036, nsec: 854775807 }
}

pub fn default_qos() -> (q: rmw_qos_profile_t)
    ensures
        q == spec_default_qos(),
{
    rmw_qos_profile_t {
        history: HISTORY_KEEP_LAST,
        depth: 10,
        reliability: RELIABILITY_RELIABLE,
        durability: DURABILITY_TRANSIENT_LOCAL,
        deadline: duration_infinite(),
        lifespan: duration_infinite(),
        liveliness: LIVELINESS_AUTOMATIC,
        liveliness_lease_duration: duration_infinite(),
        avoid_ros_namespace_conventions: false,
    }
}

pub open spec fn spec_time_is_zero(t: rmw_time_t) -> bool {
    t.sec == 0 && t.nsec == 0
}

/// The profile with every "system default" sentinel (and every zero
/// duration) replaced by the static default.
pub open spec fn spec_with_defaults(q: rmw_qos_profile_t) -> rmw_qos_profile_t {
    let d = spec_default_qos();
    rmw_qos_profile_t {
        history: if q.history == HISTORY_SYSTEM_DEFAULT {
            d.history
        } else {
            q.history
        },
        depth: if q.depth == DEPTH_SYSTEM_DEFAULT {
            d.depth
        } else {
            q.depth
        },
        reliability: if q.reliability == RELIABILITY_SYSTEM_DEFAULT {
            d.reliability
        } else {
            q.reliability
        },
        durability: if q.durability == DURABILITY_SYSTEM_DEFAULT {
            d.durability
        } else {
            q.durability
        },
        deadline: if spec_time_is_zero(q.deadline) {
            d.deadline
        } else {
            q.deadline
        },
        lifespan: if spec_time_is_zero(q.lifespan) {
            d.lifespan
        } else {
            q.lifespan
        },
        liveliness: if q.liveliness == LIVELINESS_SYSTEM_DEFAULT {
            d.liveliness
        } else {
            q.liveliness
        },
        liveliness_lease_duration: if spec_time_is_zero(q.liveliness_lease_duration) {
            d.liveliness_lease_duration
        } else {
            q.liveliness_lease_duration
        },
        avoid_ros_namespace_conventions: q.avoid_ros_namespace_conventions,
    }
}

impl rmw_qos_profile_t {
    /// Every enum-valued field lies strictly below its "unknown" sentinel.
    pub open spec fn spec_is_valid(self) -> bool {
        self.history < HISTORY_UNKNOWN && self.reliability < RELIABILITY_UNKNOWN
            && self.durability < DURABILITY_UNKNOWN && self.liveliness < LIVELINESS_UNKNOWN
    }

    /// Validates the profile by checking for invalid policies.
    pub fn is_valid(&self) -> (r: bool)
        ensures
            r == self.spec_is_valid(),
    {
        self.history < HISTORY_UNKNOWN && self.reliability < RELIABILITY_UNKNOWN
            && self.durability < DURABILITY_UNKNOWN && self.liveliness < LIVELINESS_UNKNOWN
    }

    /// Replaces every system-default sentinel (and zero duration) with the
    /// corresponding field of the static default profile.
    pub fn set_default_profile(&mut self)
        ensures
            *final(self) == spec_with_defaults(*old(self)),
    {
        let d = default_qos();
        if self.history == HISTORY_SYSTEM_DEFAULT {
            self.history = d.history;
        }
        if self.depth == DEPTH_SYSTEM_DEFAULT {
            self.depth = d.depth;
        }
        if self.reliability == RELIABILITY_SYSTEM_DEFAULT {
            self.reliability = d.reliability;
        }
        if self.durability == DURABILITY_SYSTEM_DEFAULT {
            self.durability = d.durability;
        }
        if self.deadline.sec == 0 && self.deadline.nsec == 0 {
            self.deadline = d.deadline;
        }
        if self.lifespan.sec == 0 && self.lifespan.nsec == 0 {
            self.lifespan = d.lifespan;
        }
        if self.liveliness == LIVELINESS_SYSTEM_DEFAULT {
            self.liveliness = d.liveliness;
        }
        if self.liveliness_lease_duration.sec == 0 && self.liveliness_lease_duration.nsec == 0 {
            self.liveliness_lease_duration = d.liveliness_lease_duration;
        }
    }
}

/// A field of the canonical string: empty when equal to the default,
/// otherwise the decimal rendering.
pub open spec fn spec_field(v: nat, d: nat) -> Seq<char> {
    if v == d {
        Seq::empty()
    } else {
        dec_digits(v)
    }
}

/// The history group fields: history policy and depth.
pub open spec fn spec_hist_fields(q: rmw_qos_profile_t) -> Seq<Seq<char>> {
    let d = spec_default_qos();
    seq![
        spec_field(q.history as nat, d.history as nat),
        spec_field(q.depth as nat, d.depth as nat),
    ]
}

/// The deadline group fields: seconds and nanoseconds.
pub open spec fn spec_deadline_fields(q: rmw_qos_profile_t) -> Seq<Seq<char>> {
    let d = spec_default_qos();
    seq![
        spec_field(q.deadline.sec as nat, d.deadline.sec as nat),
        spec_field(q.deadline.nsec as nat, d.deadline.nsec as nat),
    ]
}

/// The lifespan group fields: seconds and nanoseconds.
pub open spec fn spec_lifespan_fields(q: rmw_qos_profile_t) -> Seq<Seq<char>> {
    let d = spec_default_qos();
    seq![
        spec_field(q.lifespan.sec as nat, d.lifespan.sec as nat),
        spec_field(q.lifespan.nsec as nat, d.lifespan.nsec as nat),
    ]
}

/// The liveliness group fields: policy and lease duration.
pub open spec fn spec_liveliness_fields(q: rmw_qos_profile_t) -> Seq<Seq<char>> {
    let d = spec_default_qos();
    seq![
        spec_field(q.liveliness as nat, d.liveliness as nat),
        spec_field(
            q.liveliness_lease_duration.sec as nat,
            d.liveliness_lease_duration.sec as nat,
        ),
        spec_field(
            q.liveliness_lease_duration.nsec as nat,
            d.liveliness_lease_duration.nsec as nat,
        ),
    ]
}

/// The six colon-separated groups of the canonical string form.
pub open spec fn spec_qos_groups(q: rmw_qos_profile_t) -> Seq<Seq<char>> {
    let d = spec_default_qos();
    seq![
        spec_field(q.reliability as nat, d.reliability as nat),
        spec_field(q.durability as nat, d.durability as nat),
        spec_join(spec_hist_fields(q), ','),
        spec_join(spec_deadline_fields(q), ','),
        spec_join(spec_lifespan_fields(q), ','),
        spec_join(spec_liveliness_fields(q), ','),
    ]
}

/// The canonical string form of a profile.
pub open spec fn spec_qos_string(q: rmw_qos_profile_t) -> Seq<char> {
    spec_join(spec_qos_groups(q), ':')
}

/// The value a field parses back to: the decimal value when the text is a
/// well-formed number in range, the default otherwise.
pub open spec fn spec_parse_field(s: Seq<char>, d: nat, bound: nat) -> nat {
    match parse_dec(s, bound) {
        Some(v) => v,
        None => d,
    }
}

/// What parsing a canonical QoS string yields: `None` exactly on a wrong
/// segment count at one of the colon or comma levels.
pub open spec fn spec_parse_qos(s: Seq<char>) -> Option<rmw_qos_profile_t> {
    let d = spec_default_qos();
    let groups = spec_split(s, ':');
    if groups.len() != 6 {
        None
    } else {
        let hist = spec_split(groups[2], ',');
        let dead = spec_split(groups[3], ',');
        let life = spec_split(groups[4], ',');
        let lively = spec_split(groups[5], ',');
        if hist.len() != 2 || dead.len() != 2 || life.len() != 2 || lively.len() != 3 {
            None
        } else {
            Some(
                rmw_qos_profile_t {
                    history: spec_parse_field(hist[0], d.history as nat, u32::MAX as nat) as u32,
                    depth: spec_parse_field(hist[1], d.depth as nat, usize::MAX as nat) as usize,
                    reliability: spec_parse_field(
                        groups[0],
                        d.reliability as nat,
                        u32::MAX as nat,
                    ) as u32,
                    durability: spec_parse_field(
                        groups[1],
                        d.durability as nat,
                        u32::MAX as nat,
                    ) as u32,
                    deadline: rmw_time_t {
                        sec: spec_parse_field(dead[0], d.deadline.sec as nat, u64::MAX as nat)
                            as u64,
                        nsec: spec_parse_field(dead[1], d.deadline.nsec as nat, u64::MAX as nat)
                            as u64,
                    },
                    lifespan: rmw_time_t {
                        sec: spec_parse_field(life[0], d.lifespan.sec as nat, u64::MAX as nat)
                            as u64,
                        nsec: spec_parse_field(life[1], d.lifespan.nsec as nat, u64::MAX as nat)
                            as u64,
                    },
                    liveliness: spec_parse_field(
                        lively[0],
                        d.liveliness as nat,
                        u32::MAX as nat,
                    ) as u32,
                    liveliness_lease_duration: rmw_time_t {
                        sec: spec_parse_field(
                            lively[1],
                            d.liveliness_lease_duration.sec as nat,
                            u64::MAX as nat,
                        ) as u64,
                        nsec: spec_parse_field(
                            lively[2],
                            d.liveliness_lease_duration.nsec as nat,
                            u64::MAX as nat,
                        ) as u64,
                    },
                    avoid_ros_namespace_conventions: d.avoid_ros_namespace_conventions,
                },
            )
        }
    }
}

/// A rendered field consists of decimal digits only, so it never contains a
/// separator character.
proof fn lemma_field_sep_free(v: nat, d: nat, sep: char)
    requires
        sep < '0' || sep > '9',
    ensures
        crate::text::sep_free(spec_field(v, d), sep),
{
    let s = spec_field(v, d);
    assert forall|i: int| 0 <= i < s.len() implies #[trigger] s[i] != sep by {
        crate::text::lemma_dec_digits_all_decimal(v, s[i]);
    }
}

/// Joining separator-free pieces with one separator stays free of any other
/// separator.
proof fn lemma_join_sep_free(parts: Seq<Seq<char>>, sep: char, other: char)
    requires
        other != sep,
        forall|i: int| 0 <= i < parts.len() ==> crate::text::sep_free(#[trigger] parts[i], other),
    ensures
        crate::text::sep_free(spec_join(parts, sep), other),
    decreases parts.len(),
{
    if parts.len() == 0 {
    } else if parts.len() == 1 {
        assert(spec_join(parts, sep) == parts[0]);
    } else {
        lemma_join_sep_free(parts.drop_first(), sep, other);
        let s = parts[0] + seq![sep] + spec_join(parts.drop_first(), sep);
        assert forall|i: int| 0 <= i < s.len() implies #[trigger] s[i] != other by {
            if i < parts[0].len() {
                assert(s[i] == parts[0][i]);
            } else if i == parts[0].len() {
                assert(s[i] == sep);
            } else {
                assert(s[i] == spec_join(parts.drop_first(), sep)[i - parts[0].len() - 1]);
            }
        }
    }
}

/// Rendering a field and parsing it back against the same default yields the
/// original value.
proof fn lemma_field_round_trip(v: nat, d: nat, bound: nat)
    requires
        v <= bound,
        d <= bound,
    ensures
        spec_parse_field(spec_field(v, d), d, bound) == v,
{
    if v == d {
    } else {
        crate::text::lemma_dec_round_trip(v, bound);
    }
}

/// The canonical string contains only digits, colons and commas, so it is
/// free of any other character.
pub proof fn lemma_qos_string_sep_free(q: rmw_qos_profile_t, other: char)
    requires
        other != ':',
        other != ',',
        other < '0' || other > '9',
    ensures
        crate::text::sep_free(spec_qos_string(q), other),
{
    let d = spec_default_qos();
    let hist = spec_hist_fields(q);
    let dead = spec_deadline_fields(q);
    let life = spec_lifespan_fields(q);
    let lively = spec_liveliness_fields(q);
    let groups = spec_qos_groups(q);
    assert forall|i: int| 0 <= i < hist.len() implies crate::text::sep_free(
        #[trigger] hist[i],
        other,
    ) by {
        lemma_field_sep_free(
            if i == 0 {
                q.history as nat
            } else {
                q.depth as nat
            },
            if i == 0 {
                d.history as nat
            } else {
                d.depth as nat
            },
            other,
        );
    }
    assert forall|i: int| 0 <= i < dead.len() implies crate::text::sep_free(
        #[trigger] dead[i],
        other,
    ) by {
        lemma_field_sep_free(
            if i == 0 {
                q.deadline.sec as nat
            } else {
                q.deadline.nsec as nat
            },
            if i == 0 {
                d.deadline.sec as nat
            } else {
                d.deadline.nsec as nat
            },
            other,
        );
    }
    assert forall|i: int| 0 <= i < life.len() implies crate::text::sep_free(
        #[trigger] life[i],
        other,
    ) by {
        lemma_field_sep_free(
            if i == 0 {
                q.lifespan.sec as nat
            } else {
                q.lifespan.nsec as nat
            },
            if i == 0 {
                d.lifespan.sec as nat
            } else {
                d.lifespan.nsec as nat
            },
            other,
        );
    }
    assert forall|i: int| 0 <= i < lively.len() implies crate::text::sep_free(
        #[trigger] lively[i],
        other,
    ) by {
        lemma_field_sep_free(
            if i == 0 {
                q.liveliness as nat
            } else if i == 1 {
                q.liveliness_lease_duration.sec as nat
            } else {
                q.liveliness_lease_duration.nsec as nat
            },
            if i == 0 {
                d.liveliness as nat
            } else if i == 1 {
                d.liveliness_lease_duration.sec as nat
            } else {
                d.liveliness_lease_duration.nsec as nat
            },
            other,
        );
    }
    lemma_join_sep_free(hist, ',', other);
    lemma_join_sep_free(dead, ',', other);
    lemma_join_sep_free(life, ',', other);
    lemma_join_sep_free(lively, ',', other);
    lemma_field_sep_free(q.reliability as nat, d.reliability as nat, other);
    lemma_field_sep_free(q.durability as nat, d.durability as nat, other);
    lemma_join_sep_free(groups, ':', other);
}

/// Rendering a profile in canonical form and parsing it back yields the same
/// profile, provided the namespace-convention flag holds its default value
/// (the flag is not part of the string form).
pub proof fn lemma_qos_string_round_trip(q: rmw_qos_profile_t)
    requires
        q.avoid_ros_namespace_conventions == spec_default_qos().avoid_ros_namespace_conventions,
    ensures
        spec_parse_qos(spec_qos_string(q)) == Some(q),
{
    let d = spec_default_qos();
    let hist = spec_hist_fields(q);
    let dead = spec_deadline_fields(q);
    let life = spec_lifespan_fields(q);
    let lively = spec_liveliness_fields(q);
    let groups = spec_qos_groups(q);
    assert forall|i: int| 0 <= i < hist.len() implies crate::text::sep_free(
        #[trigger] hist[i],
        ',',
    ) by {
        lemma_field_sep_free(
            if i == 0 {
                q.history as nat
            } else {
                q.depth as nat
            },
            if i == 0 {
                d.history as nat
            } else {
                d.depth as nat
            },
            ',',
        );
    }
    assert forall|i: int| 0 <= i < dead.len() implies crate::text::sep_free(
        #[trigger] dead[i],
        ',',
    ) by {
        lemma_field_sep_free(
            if i == 0 {
                q.deadline.sec as nat
            } else {
                q.deadline.nsec as nat
            },
            if i == 0 {
                d.deadline.sec as nat
            } else {
                d.deadline.nsec as nat
            },
            ',',
        );
    }
    assert forall|i: int| 0 <= i < life.len() implies crate::text::sep_free(
        #[trigger] life[i],
        ',',
    ) by {
        lemma_field_sep_free(
            if i == 0 {
                q.lifespan.sec as nat
            } else {
                q.lifespan.nsec as nat
            },
            if i == 0 {
                d.lifespan.sec as nat
            } else {
                d.lifespan.nsec as nat
            },
            ',',
        );
    }
    assert forall|i: int| 0 <= i < lively.len() implies crate::text::sep_free(
        #[trigger] lively[i],
        ',',
    ) by {
        lemma_field_sep_free(
            if i == 0 {
                q.liveliness as nat
            } else if i == 1 {
                q.liveliness_lease_duration.sec as nat
            } else {
                q.liveliness_lease_duration.nsec as nat
            },
            if i == 0 {
                d.liveliness as nat
            } else if i == 1 {
                d.liveliness_lease_duration.sec as nat
            } else {
                d.liveliness_lease_duration.nsec as nat
            },
            ',',
        );
    }
    // Every piece that makes up a comma group is colon-free as well, so the
    // groups themselves are colon-free.
    assert forall|i: int| 0 <= i < hist.len() implies crate::text::sep_free(
        #[trigger] hist[i],
        ':',
    ) by {
        lemma_field_sep_free(
            if i == 0 {
                q.history as nat
            } else {
                q.depth as nat
            },
            if i == 0 {
                d.history as nat
            } else {
                d.depth as nat
            },
            ':',
        );
    }
    assert forall|i: int| 0 <= i < dead.len() implies crate::text::sep_free(
        #[trigger] dead[i],
        ':',
    ) by {
        lemma_field_sep_free(
            if i == 0 {
                q.deadline.sec as nat
            } else {
                q.deadline.nsec as nat
            },
            if i == 0 {
                d.deadline.sec as nat
            } else {
                d.deadline.nsec as nat
            },
            ':',
        );
    }
    assert forall|i: int| 0 <= i < life.len() implies crate::text::sep_free(
        #[trigger] life[i],
        ':',
    ) by {
        lemma_field_sep_free(
            if i == 0 {
                q.lifespan.sec as nat
            } else {
                q.lifespan.nsec as nat
            },
            if i == 0 {
                d.lifespan.sec as nat
            } else {
                d.lifespan.nsec as nat
            },
            ':',
        );
    }
    assert forall|i: int| 0 <= i < lively.len() implies crate::text::sep_free(
        #[trigger] lively[i],
        ':',
    ) by {
        lemma_field_sep_free(
            if i == 0 {
                q.liveliness as nat
            } else if i == 1 {
                q.liveliness_lease_duration.sec as nat
            } else {
                q.liveliness_lease_duration.nsec as nat
            },
            if i == 0 {
                d.liveliness as nat
            } else if i == 1 {
                d.liveliness_lease_duration.sec as nat
            } else {
                d.liveliness_lease_duration.nsec as nat
            },
            ':',
        );
    }
    lemma_join_sep_free(hist, ',', ':');
    lemma_join_sep_free(dead, ',', ':');
    lemma_join_sep_free(life, ',', ':');
    lemma_join_sep_free(lively, ',', ':');
    lemma_field_sep_free(q.reliability as nat, d.reliability as nat, ':');
    lemma_field_sep_free(q.durability as nat, d.durability as nat, ':');
    crate::text::lemma_split_join(groups, ':');
    crate::text::lemma_split_join(hist, ',');
    crate::text::lemma_split_join(dead, ',');
    crate::text::lemma_split_join(life, ',');
    crate::text::lemma_split_join(lively, ',');
    lemma_field_round_trip(q.history as nat, d.history as nat, u32::MAX as nat);
    lemma_field_round_trip(q.depth as nat, d.depth as nat, usize::MAX as nat);
    lemma_field_round_trip(q.reliability as nat, d.reliability as nat, u32::MAX as nat);
    lemma_field_round_trip(q.durability as nat, d.durability as nat, u32::MAX as nat);
    lemma_field_round_trip(q.deadline.sec as nat, d.deadline.sec as nat, u64::MAX as nat);
    lemma_field_round_trip(q.deadline.nsec as nat, d.deadline.nsec as nat, u64::MAX as nat);
    lemma_field_round_trip(q.lifespan.sec as nat, d.lifespan.sec as nat, u64::MAX as nat);
    lemma_field_round_trip(q.lifespan.nsec as nat, d.lifespan.nsec as nat, u64::MAX as nat);
    lemma_field_round_trip(q.liveliness as nat, d.liveliness as nat, u32::MAX as nat);
    lemma_field_round_trip(
        q.liveliness_lease_duration.sec as nat,
        d.liveliness_lease_duration.sec as nat,
        u64::MAX as nat,
    );
    lemma_field_round_trip(
        q.liveliness_lease_duration.nsec as nat,
        d.liveliness_lease_duration.nsec as nat,
        u64::MAX as nat,
    );
    assert(spec_parse_qos(spec_qos_string(q)) == Some(q));
}

fn field_u32(v: u32, d: u32) -> (s: String)
    ensures
        s@ == spec_field(v as nat, d as nat),
{
    if v == d {
        String::new()
    } else {
        to_dec_string(v as u64)
    }
}

fn field_u64(v: u64, d: u64) -> (s: String)
    ensures
        s@ == spec_field(v as nat, d as nat),
{
    if v == d {
        String::new()
    } else {
        to_dec_string(v)
    }
}

fn field_usize(v: usize, d: usize) -> (s: String)
    ensures
        s@ == spec_field(v as nat, d as nat),
{
    if v == d {
        String::new()
    } else {
        to_dec_string(v as u64)
    }
}

fn parse_field_u32(s: &str, d: u32) -> (v: u32)
    ensures
        v as nat == spec_parse_field(s@, d as nat, u32::MAX as nat),
{
    match parse_u32_str(s) {
        Some(v) => v,
        None => d,
    }
}

fn parse_field_u64(s: &str, d: u64) -> (v: u64)
    ensures
        v as nat == spec_parse_field(s@, d as nat, u64::MAX as nat),
{
    match parse_u64_str(s) {
        Some(v) => v,
        None => d,
    }
}

fn parse_field_usize(s: &str, d: usize) -> (v: usize)
    ensures
        v as nat == spec_parse_field(s@, d as nat, usize::MAX as nat),
{
    match parse_usize_str(s) {
        Some(v) => v,
        None => d,
    }
}

impl rmw_qos_profile_t {
    /// Renders the profile in the canonical string form.
    pub fn to_string(&self) -> (s: String)
        ensures
            s@ == spec_qos_string(*self),
    {
        let d = default_qos();
        let mut hist: Vec<String> = Vec::new();
        hist.push(field_u32(self.history, d.history));
        hist.push(field_usize(self.depth, d.depth));
        let mut dead: Vec<String> = Vec::new();
        dead.push(field_u64(self.deadline.sec, d.deadline.sec));
        dead.push(field_u64(self.deadline.nsec, d.deadline.nsec));
        let mut life: Vec<String> = Vec::new();
        life.push(field_u64(self.lifespan.sec, d.lifespan.sec));
        life.push(field_u64(self.lifespan.nsec, d.lifespan.nsec));
        let mut lively: Vec<String> = Vec::new();
        lively.push(field_u32(self.liveliness, d.liveliness));
        lively.push(
            field_u64(self.liveliness_lease_duration.sec, d.liveliness_lease_duration.sec),
        );
        lively.push(
            field_u64(self.liveliness_lease_duration.nsec, d.liveliness_lease_duration.nsec),
        );
        let mut groups: Vec<String> = Vec::new();
        groups.push(field_u32(self.reliability, d.reliability));
        groups.push(field_u32(self.durability, d.durability));
        groups.push(join_char(&hist, ','));
        groups.push(join_char(&dead, ','));
        groups.push(join_char(&life, ','));
        groups.push(join_char(&lively, ','));
        let s = join_char(&groups, ':');
        proof {
            let dd = spec_default_qos();
            assert(seq_views(hist@) =~= seq![
                spec_field(self.history as nat, dd.history as nat),
                spec_field(self.depth as nat, dd.depth as nat),
            ]);
            assert(seq_views(dead@) =~= seq![
                spec_field(self.deadline.sec as nat, dd.deadline.sec as nat),
                spec_field(self.deadline.nsec as nat, dd.deadline.nsec as nat),
            ]);
            assert(seq_views(life@) =~= seq![
                spec_field(self.lifespan.sec as nat, dd.lifespan.sec as nat),
                spec_field(self.lifespan.nsec as nat, dd.lifespan.nsec as nat),
            ]);
            assert(seq_views(lively@) =~= seq![
                spec_field(self.liveliness as nat, dd.liveliness as nat),
                spec_field(
                    self.liveliness_lease_duration.sec as nat,
                    dd.liveliness_lease_duration.sec as nat,
                ),
                spec_field(
                    self.liveliness_lease_duration.nsec as nat,
                    dd.liveliness_lease_duration.nsec as nat,
                ),
            ]);
            assert(seq_views(groups@) =~= seq![
                spec_field(self.reliability as nat, dd.reliability as nat),
                spec_field(self.durability as nat, dd.durability as nat),
                spec_join(seq_views(hist@), ','),
                spec_join(seq_views(dead@), ','),
                spec_join(seq_views(life@), ','),
                spec_join(seq_views(lively@), ','),
            ]);
        }
        s
    }

    /// Parses the canonical string form; fails exactly on a wrong segment
    /// count at one of the colon or comma levels.
    pub fn from_str(s: &str) -> (r: Result<rmw_qos_profile_t, ()>)
        ensures
            r matches Ok(q) ==> spec_parse_qos(s@) == Some(q),
            r is Err ==> spec_parse_qos(s@) is None,
    {
        let d = default_qos();
        let groups = split_char(s, ':');
        if groups.len() != 6 {
            return Err(());
        }
        let hist = split_char(groups[2].as_str(), ',');
        let dead = split_char(groups[3].as_str(), ',');
        let life = split_char(groups[4].as_str(), ',');
        let lively = split_char(groups[5].as_str(), ',');
        if hist.len() != 2 || dead.len() != 2 || life.len() != 2 || lively.len() != 3 {
            return Err(());
        }
        proof {
            let sg = spec_split(s@, ':');
            assert(sg[2] == seq_views(groups@)[2]);
            assert(sg[3] == seq_views(groups@)[3]);
            assert(sg[4] == seq_views(groups@)[4]);
            assert(sg[5] == seq_views(groups@)[5]);
        }
        let q = rmw_qos_profile_t {
            history: parse_field_u32(hist[0].as_str(), d.history),
            depth: parse_field_usize(hist[1].as_str(), d.depth),
            reliability: parse_field_u32(groups[0].as_str(), d.reliability),
            durability: parse_field_u32(groups[1].as_str(), d.durability),
            deadline: rmw_time_t {
                sec: parse_field_u64(dead[0].as_str(), d.deadline.sec),
                nsec: parse_field_u64(dead[1].as_str(), d.deadline.nsec),
            },
            lifespan: rmw_time_t {
                sec: parse_field_u64(life[0].as_str(), d.lifespan.sec),
                nsec: parse_field_u64(life[1].as_str(), d.lifespan.nsec),
            },
            liveliness: parse_field_u32(lively[0].as_str(), d.liveliness),
            liveliness_lease_duration: rmw_time_t {
                sec: parse_field_u64(lively[1].as_str(), d.liveliness_lease_duration.sec),
                nsec: parse_field_u64(lively[2].as_str(), d.liveliness_lease_duration.nsec),
            },
            avoid_ros_namespace_conventions: d.avoid_ros_namespace_conventions,
        };
        Ok(q)
    }
}

} // verus!
