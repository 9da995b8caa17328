//! Entity identity and the discovery-key codec.
//!
//! Every entity (node, publisher, subscriber, service, client) is described
//! by an [`EndpointInfo`]. Its canonical key string concatenates, with `/`
//! separators, a fixed admin-namespace prefix, the numeric ids, an
//! entity-kind tag, and the mangled free-form names; non-node entities
//! append the endpoint name/type/type-hash and the canonical QoS string.
//! Mangling replaces `/` with `%` and renders the empty name as a single
//! `%`, so no segment ever contains the separator. The codec is the wire
//! format for discovery: any process following the same rules can parse any
//! other process's announcement.

use vstd::prelude::*;
use vstd::string::StrSliceExecFns;
use vstd::string::StringExecFns;

use crate::qos::rmw_qos_profile_t;
use crate::qos::default_qos;
use crate::qos::spec_default_qos;
use crate::qos::spec_parse_qos;
use crate::qos::spec_qos_string;
use crate::text::dec_digits;
use crate::text::join_char;
use crate::text::lemma_dec_digits_all_decimal;
use crate::text::lemma_dec_round_trip;
use crate::text::lemma_split_join;
use crate::text::parse_dec;
use crate::text::parse_usize_str;
use crate::text::sep_free;
use crate::text::seq_views;
use crate::text::spec_join;
use crate::text::spec_split;
use crate::text::split_char;
use crate::text::to_dec_string;

verus! {

/// Width in bytes of a GID as exposed to the host.
pub const RMW_GID_STORAGE_SIZE: usize = 16;

/// The kind of an entity, together with its two-character key tag.
#[derive(Clone, Copy, PartialEq, Eq, Structural, Debug)]
pub enum EntityType {
    Node,
    Publisher,
    Subscriber,
    Service,
    Client,
}

/// The two-character tag of an entity kind inside a key string.
pub open spec fn spec_entity_tag(t: EntityType) -> Seq<char> {
    match t {
        EntityType::Node => seq!['N', 'N'],
        EntityType::Publisher => seq!['M', 'P'],
        EntityType::Subscriber => seq!['M', 'S'],
        EntityType::Service => seq!['S', 'S'],
        EntityType::Client => seq!['S', 'C'],
    }
}

/// The entity kind a tag parses back to, if any.
pub open spec fn spec_parse_entity(s: Seq<char>) -> Option<EntityType> {
    if s == spec_entity_tag(EntityType::Node) {
        Some(EntityType::Node)
    } else if s == spec_entity_tag(EntityType::Publisher) {
        Some(EntityType::Publisher)
    } else if s == spec_entity_tag(EntityType::Subscriber) {
        Some(EntityType::Subscriber)
    } else if s == spec_entity_tag(EntityType::Service) {
        Some(EntityType::Service)
    } else if s == spec_entity_tag(EntityType::Client) {
        Some(EntityType::Client)
    } else {
        None
    }
}

impl EntityType {
    /// Renders the two-character tag of this kind.
    pub fn to_string(&self) -> (s: String)
        ensures
            s@ == spec_entity_tag(*self),
    {
        let mut s = String::new();
        match self {
            EntityType::Node => {
                s.push('N');
                s.push('N');
            },
            EntityType::Publisher => {
                s.push('M');
                s.push('P');
            },
            EntityType::Subscriber => {
                s.push('M');
                s.push('S');
            },
            EntityType::Service => {
                s.push('S');
                s.push('S');
            },
            EntityType::Client => {
                s.push('S');
                s.push('C');
            },
        }
        proof {
            assert(s@ =~= spec_entity_tag(*self));
        }
        s
    }

    /// Parses a two-character tag back into an entity kind.
    pub fn from_str(s: &str) -> (r: Result<EntityType, ()>)
        ensures
            r matches Ok(t) ==> spec_parse_entity(s@) == Some(t),
            r is Err ==> spec_parse_entity(s@) is None,
    {
        if s.unicode_len() != 2 {
            return Err(());
        }
        let c0 = s.get_char(0);
        let c1 = s.get_char(1);
        proof {
            assert(s@ =~= seq![s@[0], s@[1]]);
        }
        if c0 == 'N' && c1 == 'N' {
            proof {
                assert(s@ =~= spec_entity_tag(EntityType::Node));
            }
            Ok(EntityType::Node)
        } else if c0 == 'M' && c1 == 'P' {
            proof {
                assert(s@ =~= spec_entity_tag(EntityType::Publisher));
            }
            Ok(EntityType::Publisher)
        } else if c0 == 'M' && c1 == 'S' {
            proof {
                assert(s@ =~= spec_entity_tag(EntityType::Subscriber));
            }
            Ok(EntityType::Subscriber)
        } else if c0 == 'S' && c1 == 'S' {
            proof {
                assert(s@ =~= spec_entity_tag(EntityType::Service));
            }
            Ok(EntityType::Service)
        } else if c0 == 'S' && c1 == 'C' {
            proof {
                assert(s@ =~= spec_entity_tag(EntityType::Client));
            }
            Ok(EntityType::Client)
        } else {
            Err(())
        }
    }
}

impl Default for EntityType {
    fn default() -> (t: EntityType)
        ensures
            t == EntityType::Node,
    {
        EntityType::Node
    }
}

/// A kind's tag parses back to the kind.
pub proof fn lemma_entity_tag_round_trip(t: EntityType)
    ensures
        spec_parse_entity(spec_entity_tag(t)) == Some(t),
{
    match t {
        EntityType::Node => {},
        EntityType::Publisher => {
            assert(spec_entity_tag(EntityType::Publisher)[0] != spec_entity_tag(
                EntityType::Node,
            )[0]);
        },
        EntityType::Subscriber => {
            assert(spec_entity_tag(EntityType::Subscriber)[0] != spec_entity_tag(
                EntityType::Node,
            )[0]);
            assert(spec_entity_tag(EntityType::Subscriber)[1] != spec_entity_tag(
                EntityType::Publisher,
            )[1]);
        },
        EntityType::Service => {
            assert(spec_entity_tag(EntityType::Service)[0] != spec_entity_tag(EntityType::Node)[0]);
            assert(spec_entity_tag(EntityType::Service)[0] != spec_entity_tag(
                EntityType::Publisher,
            )[0]);
            assert(spec_entity_tag(EntityType::Service)[0] != spec_entity_tag(
                EntityType::Subscriber,
            )[0]);
        },
        EntityType::Client => {
            assert(spec_entity_tag(EntityType::Client)[0] != spec_entity_tag(EntityType::Node)[0]);
            assert(spec_entity_tag(EntityType::Client)[0] != spec_entity_tag(
                EntityType::Publisher,
            )[0]);
            assert(spec_entity_tag(EntityType::Client)[0] != spec_entity_tag(
                EntityType::Subscriber,
            )[0]);
            assert(spec_entity_tag(EntityType::Client)[1] != spec_entity_tag(
                EntityType::Service,
            )[1]);
        },
    }
}

/// Name mangling: `/` becomes `%`, the empty name becomes a single `%`.
pub open spec fn spec_mangle(s: Seq<char>) -> Seq<char> {
    if s.len() == 0 {
        seq!['%']
    } else {
        s.map_values(
            |c: char|
                if c == '/' {
                    '%'
                } else {
                    c
                },
        )
    }
}

/// Demangling: every `%` becomes `/`.
pub open spec fn spec_demangle(s: Seq<char>) -> Seq<char> {
    s.map_values(
        |c: char|
            if c == '%' {
                '/'
            } else {
                c
            },
    )
}

/// A name round-trips through mangling when it is non-empty and holds no
/// reserved `%` character.
pub open spec fn mangle_safe(s: Seq<char>) -> bool {
    s.len() > 0 && sep_free(s, '%')
}

/// A mangled name never contains the `/` separator.
pub proof fn lemma_mangle_slash_free(s: Seq<char>)
    ensures
        sep_free(spec_mangle(s), '/'),
{
    if s.len() == 0 {
    } else {
        assert forall|i: int| 0 <= i < spec_mangle(s).len() implies #[trigger] spec_mangle(s)[i]
            != '/' by {
            assert(spec_mangle(s)[i] == if s[i] == '/' {
                '%'
            } else {
                s[i]
            });
        }
    }
}

/// Demangling a `%`-free string changes nothing.
pub proof fn lemma_demangle_id(s: Seq<char>)
    requires
        sep_free(s, '%'),
    ensures
        spec_demangle(s) == s,
{
    assert(spec_demangle(s) =~= s);
}

/// Demangling inverts mangling on every non-empty, `%`-free name, including
/// names that contain `/`.
pub proof fn lemma_mangle_round_trip(s: Seq<char>)
    requires
        mangle_safe(s),
    ensures
        spec_demangle(spec_mangle(s)) == s,
{
    assert forall|i: int| 0 <= i < s.len() implies spec_demangle(spec_mangle(s))[i] == s[i] by {
        assert(spec_mangle(s)[i] == if s[i] == '/' {
            '%'
        } else {
            s[i]
        });
    }
    assert(spec_demangle(spec_mangle(s)) =~= s);
}

/// The fixed admin-namespace prefix of every discovery key.
pub open spec fn spec_admin_space() -> Seq<char> {
    seq!['@', 'r', 'o', 's', '2', '_', 'l', 'v']
}

/// Returns the admin-namespace prefix.
pub fn admin_space() -> (s: String)
    ensures
        s@ == spec_admin_space(),
{
    let s = String::from_str("@ros2_lv");
    proof {
        reveal_strlit("@ros2_lv");
        assert(s@ =~= spec_admin_space());
    }
    s
}

/// The SHA-256 digest of a string's UTF-8 bytes, as a sequence of 32 bytes.
pub uninterp spec fn sha256_of(s: Seq<char>) -> Seq<u8>;

/// Relies on `sha2::Sha256::digest`: the 32-byte SHA-256 digest of the
/// input bytes, a function of the input alone.
#[verifier::external_body]
fn sha256_str(s: &str) -> (r: Vec<u8>)
    ensures
        r@ == sha256_of(s@),
        r@.len() == 32,
{
    <sha2::Sha256 as sha2::Digest>::digest(s.as_bytes()).to_vec()
}

/// The GID of an identity: its hashed discovery key, truncated to the fixed
/// storage width.
pub open spec fn spec_gid(v: EndpointInfoView) -> Seq<u8> {
    sha256_of(spec_key_expr(v)).take(RMW_GID_STORAGE_SIZE as int)
}

/// The identity of one entity, and the payload of its discovery key.
#[derive(Debug, PartialEq)]
pub struct EndpointInfo {
    pub domain_id: usize,
    pub z_id: String,
    pub node_id: usize,
    pub entity_id: usize,
    pub entity_type: EntityType,
    pub enclave: String,
    pub namespace: String,
    pub node_name: String,
    pub endpoint_name: String,
    pub endpoint_type: String,
    pub endpoint_typehash: String,
    pub qos: rmw_qos_profile_t,
}

/// The mathematical value of an [`EndpointInfo`].
pub ghost struct EndpointInfoView {
    pub domain_id: usize,
    pub z_id: Seq<char>,
    pub node_id: usize,
    pub entity_id: usize,
    pub entity_type: EntityType,
    pub enclave: Seq<char>,
    pub namespace: Seq<char>,
    pub node_name: Seq<char>,
    pub endpoint_name: Seq<char>,
    pub endpoint_type: Seq<char>,
    pub endpoint_typehash: Seq<char>,
    pub qos: rmw_qos_profile_t,
}

impl View for EndpointInfo {
    type V = EndpointInfoView;

    open spec fn view(&self) -> EndpointInfoView {
        EndpointInfoView {
            domain_id: self.domain_id,
            z_id: self.z_id@,
            node_id: self.node_id,
            entity_id: self.entity_id,
            entity_type: self.entity_type,
            enclave: self.enclave@,
            namespace: self.namespace@,
            node_name: self.node_name@,
            endpoint_name: self.endpoint_name@,
            endpoint_type: self.endpoint_type@,
            endpoint_typehash: self.endpoint_typehash@,
            qos: self.qos,
        }
    }
}

impl Clone for EndpointInfo {
    fn clone(&self) -> (r: Self)
        ensures
            r@ == self@,
    {
        EndpointInfo {
            domain_id: self.domain_id,
            z_id: self.z_id.clone(),
            node_id: self.node_id,
            entity_id: self.entity_id,
            entity_type: self.entity_type,
            enclave: self.enclave.clone(),
            namespace: self.namespace.clone(),
            node_name: self.node_name.clone(),
            endpoint_name: self.endpoint_name.clone(),
            endpoint_type: self.endpoint_type.clone(),
            endpoint_typehash: self.endpoint_typehash.clone(),
            qos: self.qos,
        }
    }
}

/// The identity every decode starts from: zero ids, empty names, default QoS.
pub open spec fn spec_default_endpoint_info() -> EndpointInfoView {
    EndpointInfoView {
        domain_id: 0,
        z_id: Seq::empty(),
        node_id: 0,
        entity_id: 0,
        entity_type: EntityType::Node,
        enclave: Seq::empty(),
        namespace: Seq::empty(),
        node_name: Seq::empty(),
        endpoint_name: Seq::empty(),
        endpoint_type: Seq::empty(),
        endpoint_typehash: Seq::empty(),
        qos: spec_default_qos(),
    }
}

impl Default for EndpointInfo {
    fn default() -> (r: EndpointInfo)
        ensures
            r@ == spec_default_endpoint_info(),
    {
        EndpointInfo {
            domain_id: 0,
            z_id: String::new(),
            node_id: 0,
            entity_id: 0,
            entity_type: EntityType::Node,
            enclave: String::new(),
            namespace: String::new(),
            node_name: String::new(),
            endpoint_name: String::new(),
            endpoint_type: String::new(),
            endpoint_typehash: String::new(),
            qos: default_qos(),
        }
    }
}

/// The first nine segments of an identity's discovery key.
pub open spec fn spec_base_segments(v: EndpointInfoView) -> Seq<Seq<char>> {
    seq![
        spec_admin_space(),
        dec_digits(v.domain_id as nat),
        v.z_id,
        dec_digits(v.node_id as nat),
        dec_digits(v.entity_id as nat),
        spec_entity_tag(v.entity_type),
        spec_mangle(v.enclave),
        spec_mangle(v.namespace),
        spec_mangle(v.node_name),
    ]
}

/// All segments of an identity's discovery key: nine for a node, thirteen
/// for every other kind.
pub open spec fn spec_key_segments(v: EndpointInfoView) -> Seq<Seq<char>> {
    if v.entity_type == EntityType::Node {
        spec_base_segments(v)
    } else {
        spec_base_segments(v) + seq![
            spec_mangle(v.endpoint_name),
            spec_mangle(v.endpoint_type),
            spec_mangle(v.endpoint_typehash),
            spec_qos_string(v.qos),
        ]
    }
}

/// The discovery key of an identity.
pub open spec fn spec_key_expr(v: EndpointInfoView) -> Seq<char> {
    spec_join(spec_key_segments(v), '/')
}

/// The data-plane route key of an identity: domain id plus the mangled
/// endpoint name, type and type hash.
pub open spec fn spec_topic_key(v: EndpointInfoView) -> Seq<char> {
    spec_join(
        seq![
            dec_digits(v.domain_id as nat),
            spec_mangle(v.endpoint_name),
            spec_mangle(v.endpoint_type),
            spec_mangle(v.endpoint_typehash),
        ],
        '/',
    )
}

impl EndpointInfo {
    /// Mangles a free-form name for use as one key segment.
    pub fn mangle_name(name: &str) -> (r: String)
        ensures
            r@ == spec_mangle(name@),
    {
        let n = name.unicode_len();
        if n == 0 {
            let mut s = String::new();
            s.push('%');
            proof {
                assert(s@ =~= spec_mangle(name@));
            }
            return s;
        }
        let mut out = String::new();
        let mut i: usize = 0;
        while i < n
            invariant
                i <= n,
                n == name@.len(),
                n > 0,
                out@ =~= name@.take(i as int).map_values(
                    |c: char|
                        if c == '/' {
                            '%'
                        } else {
                            c
                        },
                ),
            decreases n - i,
        {
            let c = name.get_char(i);
            if c == '/' {
                out.push('%');
            } else {
                out.push(c);
            }
            proof {
                assert(name@.take(i + 1).map_values(
                    |c: char|
                        if c == '/' {
                            '%'
                        } else {
                            c
                        },
                ) =~= name@.take(i as int).map_values(
                    |c: char|
                        if c == '/' {
                            '%'
                        } else {
                            c
                        },
                ).push(
                    if name@[i as int] == '/' {
                        '%'
                    } else {
                        name@[i as int]
                    },
                ));
            }
            i = i + 1;
        }
        proof {
            assert(name@.take(n as int) =~= name@);
            assert(out@ =~= spec_mangle(name@));
        }
        out
    }

    /// Demangles one key segment back into a free-form name.
    pub fn demangle_name(name: &str) -> (r: String)
        ensures
            r@ == spec_demangle(name@),
    {
        let n = name.unicode_len();
        let mut out = String::new();
        let mut i: usize = 0;
        while i < n
            invariant
                i <= n,
                n == name@.len(),
                out@ =~= name@.take(i as int).map_values(
                    |c: char|
                        if c == '%' {
                            '/'
                        } else {
                            c
                        },
                ),
            decreases n - i,
        {
            let c = name.get_char(i);
            if c == '%' {
                out.push('/');
            } else {
                out.push(c);
            }
            proof {
                assert(name@.take(i + 1).map_values(
                    |c: char|
                        if c == '%' {
                            '/'
                        } else {
                            c
                        },
                ) =~= name@.take(i as int).map_values(
                    |c: char|
                        if c == '%' {
                            '/'
                        } else {
                            c
                        },
                ).push(
                    if name@[i as int] == '%' {
                        '/'
                    } else {
                        name@[i as int]
                    },
                ));
            }
            i = i + 1;
        }
        proof {
            assert(name@.take(n as int) =~= name@);
            assert(out@ =~= spec_demangle(name@));
        }
        out
    }

    /// Renders the data-plane route key of this identity.
    pub fn get_endpoint_keyexpr(&self) -> (r: String)
        ensures
            r@ == spec_topic_key(self@),
    {
        let mut parts: Vec<String> = Vec::new();
        parts.push(to_dec_string(self.domain_id as u64));
        parts.push(Self::mangle_name(self.endpoint_name.as_str()));
        parts.push(Self::mangle_name(self.endpoint_type.as_str()));
        parts.push(Self::mangle_name(self.endpoint_typehash.as_str()));
        let r = join_char(&parts, '/');
        proof {
            assert(seq_views(parts@) =~= seq![
                dec_digits(self@.domain_id as nat),
                spec_mangle(self@.endpoint_name),
                spec_mangle(self@.endpoint_type),
                spec_mangle(self@.endpoint_typehash),
            ]);
        }
        r
    }

    /// Renders the full discovery key of this identity.
    pub fn to_string(&self) -> (r: String)
        ensures
            r@ == spec_key_expr(self@),
    {
        let mut parts: Vec<String> = Vec::new();
        parts.push(admin_space());
        parts.push(to_dec_string(self.domain_id as u64));
        parts.push(self.z_id.clone());
        parts.push(to_dec_string(self.node_id as u64));
        parts.push(to_dec_string(self.entity_id as u64));
        parts.push(self.entity_type.to_string());
        parts.push(Self::mangle_name(self.enclave.as_str()));
        parts.push(Self::mangle_name(self.namespace.as_str()));
        parts.push(Self::mangle_name(self.node_name.as_str()));
        let is_node = match self.entity_type {
            EntityType::Node => true,
            _ => false,
        };
        if !is_node {
            parts.push(Self::mangle_name(self.endpoint_name.as_str()));
            parts.push(Self::mangle_name(self.endpoint_type.as_str()));
            parts.push(Self::mangle_name(self.endpoint_typehash.as_str()));
            parts.push(self.qos.to_string());
        }
        let r = join_char(&parts, '/');
        proof {
            assert(seq_views(parts@) =~= spec_key_segments(self@));
        }
        r
    }

    /// Derives the fixed-width GID of this identity: the truncated
    /// cryptographic hash of its discovery key. A one-way function of the
    /// encoded key: equal keys always yield equal GIDs.
    pub fn get_gid(&self) -> (gid: [u8; 16])
        ensures
            gid@ == spec_gid(self@),
    {
        let key = self.to_string();
        let hash = sha256_str(key.as_str());
        let mut gid = [0u8; 16];
        let mut i: usize = 0;
        while i < 16
            invariant
                i <= 16,
                hash@.len() == 32,
                hash@ == sha256_of(spec_key_expr(self@)),
                forall|j: int| 0 <= j < i ==> gid@[j] == hash@[j],
            decreases 16 - i,
        {
            gid[i] = hash[i];
            i = i + 1;
        }
        proof {
            assert(gid@ =~= spec_gid(self@));
        }
        gid
    }

    /// What decoding a key string yields, if anything: the segments are
    /// split on `/`, the admin prefix and segment count are checked, and
    /// each free-form segment is demangled.
    pub open spec fn spec_decode_key(s: Seq<char>) -> Option<EndpointInfoView> {
        let vals = spec_split(s, '/');
        if vals.len() < 9 {
            None
        } else if vals[0] != spec_admin_space() {
            None
        } else if vals.len() < 13 && vals[5] != spec_entity_tag(EntityType::Node) {
            None
        } else if parse_dec(vals[1], usize::MAX as nat) is None {
            None
        } else if parse_dec(vals[3], usize::MAX as nat) is None {
            None
        } else if parse_dec(vals[4], usize::MAX as nat) is None {
            None
        } else if spec_parse_entity(vals[5]) is None {
            None
        } else {
            let is_node = vals[5] == spec_entity_tag(EntityType::Node);
            if !is_node && spec_parse_qos(spec_demangle(vals[12])) is None {
                None
            } else {
                let d = spec_default_endpoint_info();
                Some(
                    EndpointInfoView {
                        domain_id: parse_dec(vals[1], usize::MAX as nat).unwrap() as usize,
                        z_id: vals[2],
                        node_id: parse_dec(vals[3], usize::MAX as nat).unwrap() as usize,
                        entity_id: parse_dec(vals[4], usize::MAX as nat).unwrap() as usize,
                        entity_type: spec_parse_entity(vals[5]).unwrap(),
                        enclave: spec_demangle(vals[6]),
                        namespace: spec_demangle(vals[7]),
                        node_name: spec_demangle(vals[8]),
                        endpoint_name: if is_node {
                            d.endpoint_name
                        } else {
                            spec_demangle(vals[9])
                        },
                        endpoint_type: if is_node {
                            d.endpoint_type
                        } else {
                            spec_demangle(vals[10])
                        },
                        endpoint_typehash: if is_node {
                            d.endpoint_typehash
                        } else {
                            spec_demangle(vals[11])
                        },
                        qos: if is_node {
                            d.qos
                        } else {
                            spec_parse_qos(spec_demangle(vals[12])).unwrap()
                        },
                    },
                )
            }
        }
    }

    /// Decodes a discovery key back into an identity; fails on a short
    /// key, a wrong admin prefix, a malformed number, an unknown entity
    /// tag, or a malformed QoS segment.
    pub fn from_str(key_expr: &str) -> (r: Result<EndpointInfo, ()>)
        ensures
            r matches Ok(info) ==> Self::spec_decode_key(key_expr@) == Some(info@),
            r is Err ==> Self::spec_decode_key(key_expr@) is None,
    {
        let values = split_char(key_expr, '/');
        proof {
            assert(seq_views(values@).len() == values@.len());
        }
        if values.len() < 9 {
            return Err(());
        }
        let admin = admin_space();
        if !(values[0] == admin) {
            return Err(());
        }
        let entity_parse = EntityType::from_str(values[5].as_str());
        let is_node = match &entity_parse {
            Ok(EntityType::Node) => true,
            _ => false,
        };
        proof {
            let vals = spec_split(key_expr@, '/');
            assert(vals[5] == seq_views(values@)[5]);
            if is_node {
                assert(vals[5] == spec_entity_tag(EntityType::Node));
            } else {
                assert(vals[5] != spec_entity_tag(EntityType::Node));
            }
        }
        if values.len() < 13 && !is_node {
            return Err(());
        }
        let domain_id = match parse_usize_str(values[1].as_str()) {
            Some(v) => v,
            None => {
                return Err(());
            },
        };
        let node_id = match parse_usize_str(values[3].as_str()) {
            Some(v) => v,
            None => {
                return Err(());
            },
        };
        let entity_id = match parse_usize_str(values[4].as_str()) {
            Some(v) => v,
            None => {
                return Err(());
            },
        };
        let entity_type = match entity_parse {
            Ok(t) => t,
            Err(_) => {
                return Err(());
            },
        };
        let mut info = EndpointInfo::default();
        info.domain_id = domain_id;
        info.z_id = values[2].clone();
        info.node_id = node_id;
        info.entity_id = entity_id;
        info.entity_type = entity_type;
        info.enclave = Self::demangle_name(values[6].as_str());
        info.namespace = Self::demangle_name(values[7].as_str());
        info.node_name = Self::demangle_name(values[8].as_str());
        if !is_node {
            info.endpoint_name = Self::demangle_name(values[9].as_str());
            info.endpoint_type = Self::demangle_name(values[10].as_str());
            info.endpoint_typehash = Self::demangle_name(values[11].as_str());
            let qos_text = Self::demangle_name(values[12].as_str());
            info.qos = match rmw_qos_profile_t::from_str(qos_text.as_str()) {
                Ok(q) => q,
                Err(_) => {
                    return Err(());
                },
            };
        }
        proof {
            let vals = spec_split(key_expr@, '/');
            assert(vals[0] == seq_views(values@)[0]);
            assert(vals[1] == seq_views(values@)[1]);
            assert(vals[2] == seq_views(values@)[2]);
            assert(vals[3] == seq_views(values@)[3]);
            assert(vals[4] == seq_views(values@)[4]);
            assert(vals[6] == seq_views(values@)[6]);
            assert(vals[7] == seq_views(values@)[7]);
            assert(vals[8] == seq_views(values@)[8]);
            if !is_node {
                assert(vals[9] == seq_views(values@)[9]);
                assert(vals[10] == seq_views(values@)[10]);
                assert(vals[11] == seq_views(values@)[11]);
                assert(vals[12] == seq_views(values@)[12]);
            }
            assert(Self::spec_decode_key(key_expr@) == Some(info@));
        }
        Ok(info)
    }
}

/// Decimal digit strings never contain a non-digit separator.
proof fn lemma_dec_sep_free(n: nat, sep: char)
    requires
        sep < '0' || sep > '9',
    ensures
        sep_free(dec_digits(n), sep),
{
    assert forall|i: int| 0 <= i < dec_digits(n).len() implies #[trigger] dec_digits(n)[i]
        != sep by {
        assert(dec_digits(n).contains(dec_digits(n)[i]));
        lemma_dec_digits_all_decimal(n, dec_digits(n)[i]);
    }
}

/// Entity tags never contain the key separator.
proof fn lemma_tag_slash_free(t: EntityType)
    ensures
        sep_free(spec_entity_tag(t), '/'),
{
    match t {
        EntityType::Node => {},
        EntityType::Publisher => {},
        EntityType::Subscriber => {},
        EntityType::Service => {},
        EntityType::Client => {},
    }
}

/// An identity round-trips through the key codec when its raw peer id holds
/// no separator, its free-form names are non-empty and `%`-free, and (for a
/// node) the endpoint fields hold their defaults, since a node key does not
/// carry them.
pub open spec fn spec_encodable(v: EndpointInfoView) -> bool {
    &&& sep_free(v.z_id, '/')
    &&& mangle_safe(v.enclave)
    &&& mangle_safe(v.namespace)
    &&& mangle_safe(v.node_name)
    &&& if v.entity_type == EntityType::Node {
        &&& v.endpoint_name == Seq::<char>::empty()
        &&& v.endpoint_type == Seq::<char>::empty()
        &&& v.endpoint_typehash == Seq::<char>::empty()
        &&& v.qos == spec_default_qos()
    } else {
        &&& mangle_safe(v.endpoint_name)
        &&& mangle_safe(v.endpoint_type)
        &&& mangle_safe(v.endpoint_typehash)
        &&& v.qos.avoid_ros_namespace_conventions
            == spec_default_qos().avoid_ros_namespace_conventions
    }
}

/// Decoding the encoded key of an encodable identity yields the identity
/// back: the codec is injective over its valid domain.
pub proof fn lemma_key_expr_round_trip(v: EndpointInfoView)
    requires
        spec_encodable(v),
    ensures
        EndpointInfo::spec_decode_key(spec_key_expr(v)) == Some(v),
{
    let segs = spec_key_segments(v);
    let is_node = v.entity_type == EntityType::Node;
    assert forall|i: int| 0 <= i < segs.len() implies sep_free(#[trigger] segs[i], '/') by {
        if i == 0 {
            assert(sep_free(spec_admin_space(), '/')) by {
                assert forall|j: int| 0 <= j < spec_admin_space().len() implies #[trigger]
                    spec_admin_space()[j] != '/' by {
                }
            }
        } else if i == 1 {
            lemma_dec_sep_free(v.domain_id as nat, '/');
        } else if i == 2 {
        } else if i == 3 {
            lemma_dec_sep_free(v.node_id as nat, '/');
        } else if i == 4 {
            lemma_dec_sep_free(v.entity_id as nat, '/');
        } else if i == 5 {
            lemma_tag_slash_free(v.entity_type);
        } else if i == 6 {
            lemma_mangle_slash_free(v.enclave);
        } else if i == 7 {
            lemma_mangle_slash_free(v.namespace);
        } else if i == 8 {
            lemma_mangle_slash_free(v.node_name);
        } else if i == 9 {
            lemma_mangle_slash_free(v.endpoint_name);
        } else if i == 10 {
            lemma_mangle_slash_free(v.endpoint_type);
        } else if i == 11 {
            lemma_mangle_slash_free(v.endpoint_typehash);
        } else {
            crate::qos::lemma_qos_string_sep_free(v.qos, '/');
        }
    }
    lemma_split_join(segs, '/');
    let vals = spec_split(spec_key_expr(v), '/');
    assert(vals == segs);
    lemma_entity_tag_round_trip(v.entity_type);
    if !is_node {
        assert(vals[5] != spec_entity_tag(EntityType::Node)) by {
            if vals[5] == spec_entity_tag(EntityType::Node) {
                assert(spec_parse_entity(vals[5]) == Some(EntityType::Node));
            }
        }
    }
    lemma_dec_round_trip(v.domain_id as nat, usize::MAX as nat);
    lemma_dec_round_trip(v.node_id as nat, usize::MAX as nat);
    lemma_dec_round_trip(v.entity_id as nat, usize::MAX as nat);
    lemma_mangle_round_trip(v.enclave);
    lemma_mangle_round_trip(v.namespace);
    lemma_mangle_round_trip(v.node_name);
    if !is_node {
        lemma_mangle_round_trip(v.endpoint_name);
        lemma_mangle_round_trip(v.endpoint_type);
        lemma_mangle_round_trip(v.endpoint_typehash);
        crate::qos::lemma_qos_string_sep_free(v.qos, '%');
        lemma_demangle_id(spec_qos_string(v.qos));
        crate::qos::lemma_qos_string_round_trip(v.qos);
    }
    let decoded = EndpointInfo::spec_decode_key(spec_key_expr(v));
    assert(decoded == Some(v));
}

/// Two encodable identities with the same discovery key are the same
/// identity: the codec is a bijection between encodable identities and
/// their keys.
pub proof fn lemma_key_expr_injective(a: EndpointInfoView, b: EndpointInfoView)
    requires
        spec_encodable(a),
        spec_encodable(b),
        spec_key_expr(a) == spec_key_expr(b),
    ensures
        a == b,
{
    lemma_key_expr_round_trip(a);
    lemma_key_expr_round_trip(b);
}

} // verus!
