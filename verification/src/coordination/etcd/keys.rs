//! The keys of one coordination namespace.
use crate::coordination::etcd::error::{CoordinationError, CoordinationFault};
use crate::model::{InstanceId, PartitionId, ResourceId, SessionId};
use crate::text;
use vstd::prelude::*;
use vstd::string::*;
use vstd::utf8::*;

verus! {

/// The hexadecimal digit of value `n`.
pub open spec fn hex_digit(n: u8) -> char {
    if n < 10 {
        ('0' as int + n) as char
    } else {
        ('a' as int + n - 10) as char
    }
}

/// Two hexadecimal digits for each byte.
pub open spec fn hex_of(bytes: Seq<u8>) -> Seq<char>
    decreases bytes.len(),
{
    if bytes.len() == 0 {
        Seq::empty()
    } else {
        hex_of(bytes.drop_last()).push(hex_digit(bytes.last() / 16)).push(
            hex_digit(bytes.last() % 16),
        )
    }
}

/// The value of a hexadecimal digit in either case.
pub open spec fn hex_value(b: u8) -> Option<u8> {
    if 48 <= b <= 57 {
        Some((b - 48) as u8)
    } else if 97 <= b <= 102 {
        Some((b - 87) as u8)
    } else if 65 <= b <= 70 {
        Some((b - 55) as u8)
    } else {
        None
    }
}

/// The byte that a pair of characters writes: two hexadecimal digits, or one
/// digit after a plus sign.
pub open spec fn pair_value(a: u8, b: u8) -> Option<u8> {
    match (hex_value(a), hex_value(b)) {
        (Some(hi), Some(lo)) => Some((hi * 16 + lo) as u8),
        (None, Some(lo)) if a == 43 => Some(lo),
        _ => None,
    }
}

/// The bytes that pairs of characters write.
pub open spec fn unhex(bytes: Seq<u8>) -> Option<Seq<u8>>
    decreases bytes.len(),
{
    if bytes.len() == 0 {
        Some(Seq::empty())
    } else if bytes.len() == 1 {
        None
    } else {
        let n = bytes.len() as int;
        match (unhex(bytes.take(n - 2)), pair_value(bytes[n - 2], bytes[n - 1])) {
            (Some(before), Some(b)) => Some(before.push(b)),
            _ => None,
        }
    }
}

/// The key segment of a text.
pub open spec fn segment_of(value: Seq<char>) -> Seq<char> {
    hex_of(encode_utf8(value))
}

/// The text of a key segment.
pub open spec fn text_of_segment(segment: Seq<char>) -> Option<Seq<char>> {
    match unhex(encode_utf8(segment)) {
        Some(bytes) if valid_utf8(bytes) => Some(decode_utf8(bytes)),
        _ => None,
    }
}

/// `c` is a lower-case hexadecimal digit.
pub open spec fn is_hex(c: char) -> bool {
    '0' <= c <= '9' || 'a' <= c <= 'f'
}

proof fn hex_digits_are_hex(bytes: Seq<u8>)
    ensures
        hex_of(bytes).len() == 2 * bytes.len(),
        forall|i: int| 0 <= i < hex_of(bytes).len() ==> is_hex(#[trigger] hex_of(bytes)[i]),
    decreases bytes.len(),
{
    if bytes.len() > 0 {
        hex_digits_are_hex(bytes.drop_last());
        let b = bytes.last();
        assert(b / 16 < 16 && b % 16 < 16);
        assert(is_hex(hex_digit(b / 16)));
        assert(is_hex(hex_digit(b % 16)));
    }
}

/// A hexadecimal digit as a byte of text.
proof fn hex_digit_value(n: u8)
    requires
        n < 16,
    ensures
        hex_value(hex_digit(n) as u8) == Some(n),
        (hex_digit(n) as u8) as char == hex_digit(n),
{
    if n < 10 {
        assert(hex_digit(n) as u8 == 48 + n);
    } else {
        assert(hex_digit(n) as u8 == 87 + n);
    }
}

proof fn unhex_of_hex(bytes: Seq<u8>)
    ensures
        unhex(Seq::new(hex_of(bytes).len(), |i: int| hex_of(bytes)[i] as u8)) == Some(bytes),
    decreases bytes.len(),
{
    hex_digits_are_hex(bytes);
    let written = Seq::new(hex_of(bytes).len(), |i: int| hex_of(bytes)[i] as u8);
    if bytes.len() == 0 {
        assert(bytes =~= Seq::empty());
    } else {
        let rest = bytes.drop_last();
        unhex_of_hex(rest);
        hex_digits_are_hex(rest);
        let before = Seq::new(hex_of(rest).len(), |i: int| hex_of(rest)[i] as u8);
        let n = written.len() as int;
        let b = bytes.last();
        assert(written.take(n - 2) =~= before);
        hex_digit_value(b / 16);
        hex_digit_value(b % 16);
        assert(written[n - 2] == hex_digit(b / 16) as u8);
        assert(written[n - 1] == hex_digit(b % 16) as u8);
        assert((b / 16) * 16 + b % 16 == b) by (nonlinear_arith);
        assert(rest.push(b) =~= bytes);
    }
}

/// A segment is read back as the text that it was made of.
pub proof fn segment_round_trip(value: Seq<char>)
    ensures
        text_of_segment(segment_of(value)) == Some(value),
{
    let bytes = encode_utf8(value);
    let segment = segment_of(value);
    hex_digits_are_hex(bytes);
    assert(is_ascii_chars(segment)) by {
        assert forall|i: int| 0 <= i < segment.len() implies '\0' <= #[trigger] segment[i]
            <= '\u{7f}' by {
            assert(is_hex(hex_of(bytes)[i]));
        }
    }
    is_ascii_chars_encode_utf8(segment);
    unhex_of_hex(bytes);
    assert(encode_utf8(segment) =~= Seq::new(segment.len(), |i: int| hex_of(bytes)[i] as u8));
    encode_utf8_valid_utf8(value);
    encode_utf8_decode_utf8(value);
}

/// Different texts have different segments.
pub proof fn segments_are_distinct(a: Seq<char>, b: Seq<char>)
    requires
        segment_of(a) == segment_of(b),
    ensures
        a == b,
{
    segment_round_trip(a);
    segment_round_trip(b);
}

/// A segment holds no separator.
pub proof fn segment_has_no_slash(value: Seq<char>)
    ensures
        !segment_of(value).contains('/'),
{
    hex_digits_are_hex(encode_utf8(value));
    if segment_of(value).contains('/') {
        let i = segment_of(value).index_of('/');
        assert(is_hex(hex_of(encode_utf8(value))[i]));
    }
}

fn hex_char(n: u8) -> (c: char)
    requires
        n < 16,
    ensures
        c == hex_digit(n),
{
    if n < 10 {
        (48 + n) as char
    } else {
        (87 + n) as char
    }
}

/// Write a text as a key segment: two hexadecimal digits for each byte.
pub fn encode_segment(value: &str) -> (r: String)
    ensures
        r@ == segment_of(value@),
{
    let bytes = value.as_bytes();
    let mut encoded = String::new();
    let mut i: usize = 0;
    assert(bytes@.take(0) =~= Seq::empty());
    while i < bytes.len()
        invariant
            i <= bytes@.len(),
            bytes@ == encode_utf8(value@),
            encoded@ == hex_of(bytes@.take(i as int)),
        decreases bytes@.len() - i,
    {
        let byte: u8 = bytes[i];
        proof {
            assert(bytes@.take(i + 1).drop_last() =~= bytes@.take(i as int));
            assert(bytes@.take(i + 1).last() == byte);
        }
        encoded.push(hex_char(byte / 16));
        encoded.push(hex_char(byte % 16));
        i = i + 1;
    }
    assert(bytes@.take(bytes@.len() as int) =~= bytes@);
    encoded
}

fn hex_digit_of(b: u8) -> (r: Option<u8>)
    ensures
        r == hex_value(b),
        r matches Some(n) ==> n < 16,
{
    if 48 <= b && b <= 57 {
        Some(b - 48)
    } else if 97 <= b && b <= 102 {
        Some(b - 87)
    } else if 65 <= b && b <= 70 {
        Some(b - 55)
    } else {
        None
    }
}

proof fn unhex_prefix(bytes: Seq<u8>, i: int)
    requires
        0 <= i <= bytes.len(),
        i % 2 == 0,
        unhex(bytes.take(i)) is None,
    ensures
        unhex(bytes) is None,
    decreases bytes.len(),
{
    if i < bytes.len() {
        if bytes.len() == 1 {
        } else if bytes.len() % 2 == 1 {
            odd_is_none(bytes);
        } else {
            let n = bytes.len() as int;
            assert(bytes.take(n - 2).take(i) =~= bytes.take(i));
            unhex_prefix(bytes.take(n - 2), i);
        }
    } else {
        assert(bytes.take(i) =~= bytes);
    }
}

proof fn odd_is_none(bytes: Seq<u8>)
    requires
        bytes.len() % 2 == 1,
    ensures
        unhex(bytes) is None,
    decreases bytes.len(),
{
    if bytes.len() > 1 {
        odd_is_none(bytes.take(bytes.len() - 2));
    }
}

/// Calls `String::from_utf8`: the text of the bytes, or nothing where they
/// are not valid UTF-8.
#[verifier::external_body]
pub(crate) fn utf8_text(bytes: Vec<u8>) -> (r: Option<String>)
    ensures
        match r {
            Some(text) => valid_utf8(bytes@) && text@ == decode_utf8(bytes@),
            None => !valid_utf8(bytes@),
        },
{
    String::from_utf8(bytes).ok()
}

/// A copy of some bytes.
pub fn copy_bytes(bytes: &Vec<u8>) -> (r: Vec<u8>)
    ensures
        r@ == bytes@,
{
    let mut out: Vec<u8> = Vec::new();
    let mut i: usize = 0;
    while i < bytes.len()
        invariant
            i <= bytes@.len(),
            out@ == bytes@.take(i as int),
        decreases bytes@.len() - i,
    {
        out.push(bytes[i]);
        i = i + 1;
        assert(bytes@.take(i as int) =~= bytes@.take(i - 1).push(bytes@[i - 1]));
    }
    assert(bytes@.take(bytes@.len() as int) =~= bytes@);
    out
}

/// Read a key segment.
pub fn decode_segment(value: &str) -> (r: Result<String, CoordinationError>)
    ensures
        match r {
            Ok(text) => text_of_segment(value@) == Some(text@),
            Err(error) => text_of_segment(value@) is None && error@
                == CoordinationFault::InvalidKey,
        },
{
    let bytes = value.as_bytes();
    let ghost all = bytes@;
    if bytes.len() % 2 != 0 {
        proof {
            odd_is_none(all);
        }
        return Err(CoordinationError::InvalidKey);
    }
    let mut out: Vec<u8> = Vec::new();
    let mut i: usize = 0;
    assert(all.take(0) =~= Seq::empty());
    assert(out@ =~= Seq::empty());
    while i < bytes.len()
        invariant
            i <= bytes@.len(),
            bytes@.len() % 2 == 0,
            i % 2 == 0,
            all == bytes@,
            all == encode_utf8(value@),
            unhex(all.take(i as int)) == Some(out@),
        decreases bytes@.len() - i,
    {
        let hi: u8 = bytes[i];
        let lo: u8 = bytes[i + 1];
        proof {
            let next = all.take(i + 2);
            assert(next.take(next.len() - 2) =~= all.take(i as int));
            assert(next[next.len() - 2] == hi);
            assert(next[next.len() - 1] == lo);
        }
        let byte: Option<u8> = match (hex_digit_of(hi), hex_digit_of(lo)) {
            (Some(h), Some(l)) => Some(h * 16 + l),
            (None, Some(l)) => if hi == 43 {
                Some(l)
            } else {
                None
            },
            _ => None,
        };
        match byte {
            Some(b) => {
                out.push(b);
            },
            None => {
                proof {
                    unhex_prefix(all, i + 2);
                }
                return Err(CoordinationError::InvalidKey);
            },
        }
        i = i + 2;
    }
    assert(all.take(bytes@.len() as int) =~= all);
    match utf8_text(out) {
        Some(text) => Ok(text),
        None => Err(CoordinationError::InvalidKey),
    }
}

/// The key of a session in base ten.
pub open spec fn session_key_text(session: u64) -> Seq<char> {
    text::decimal(session as nat)
}

/// The text of a session identity.
pub fn session_text(session: SessionId) -> (r: String)
    ensures
        r@ == session_key_text(session@),
{
    text::decimal_of(session.sequence())
}

/// A key below a prefix.
pub open spec fn key_at(prefix: Seq<char>, suffix: Seq<char>) -> Seq<char> {
    prefix + "/"@ + suffix
}

/// The key of a metadata entry.
pub open spec fn metadata_key_at(prefix: Seq<char>, key: Seq<char>) -> Seq<char> {
    key_at(prefix, "metadata/"@ + segment_of(key))
}

/// The key that says which session of an instance is live.
pub open spec fn live_key_at(prefix: Seq<char>, instance: Seq<char>) -> Seq<char> {
    key_at(prefix, "live/"@ + segment_of(instance))
}

/// The prefix of the keys that mark the sessions of an instance.
pub open spec fn session_prefix_at(prefix: Seq<char>, instance: Seq<char>) -> Seq<char> {
    key_at(prefix, "sessions/"@ + segment_of(instance) + "/"@)
}

/// The key that marks a session of an instance.
pub open spec fn session_key_at(prefix: Seq<char>, instance: Seq<char>, session: u64) -> Seq<char> {
    session_prefix_at(prefix, instance) + session_key_text(session)
}

/// The prefix of the current-state keys of a session.
pub open spec fn current_state_prefix_at(
    prefix: Seq<char>,
    instance: Seq<char>,
    session: u64,
) -> Seq<char> {
    key_at(
        prefix,
        "current-state/"@ + segment_of(instance) + "/"@ + session_key_text(session) + "/"@,
    )
}

/// The key of the current state of a replica under a session.
pub open spec fn current_state_key_at(
    prefix: Seq<char>,
    instance: Seq<char>,
    session: u64,
    resource: Seq<char>,
    partition: Seq<char>,
) -> Seq<char> {
    current_state_prefix_at(prefix, instance, session) + segment_of(resource) + "/"@ + segment_of(
        partition,
    )
}

/// The key of a controller candidate.
pub open spec fn candidate_key_at(prefix: Seq<char>, controller: Seq<char>) -> Seq<char> {
    key_at(prefix, "controller/election/candidates/"@ + segment_of(controller))
}

/// What follows the prefix in a raw key.
pub open spec fn relative_of(prefix: Seq<char>, key: Seq<u8>) -> Result<
    Seq<char>,
    CoordinationFault,
> {
    if !valid_utf8(key) {
        Err(CoordinationFault::InvalidKey)
    } else {
        match text::after_prefix(decode_utf8(key), prefix + "/"@) {
            Some(suffix) => Ok(suffix),
            None => Err(CoordinationFault::OutsidePrefix),
        }
    }
}

/// A key of the namespace is read back as what was put below the prefix.
pub proof fn relative_of_key(prefix: Seq<char>, suffix: Seq<char>)
    ensures
        relative_of(prefix, encode_utf8(key_at(prefix, suffix))) == Ok::<
            Seq<char>,
            CoordinationFault,
        >(suffix),
{
    let key = key_at(prefix, suffix);
    encode_utf8_valid_utf8(key);
    encode_utf8_decode_utf8(key);
    let p = prefix + "/"@;
    assert(key.subrange(0, p.len() as int) =~= p);
    assert(p.is_prefix_of(key));
    assert(key.skip(p.len() as int) =~= suffix);
}

/// The prefix without its trailing slashes.
pub open spec fn trimmed(prefix: Seq<char>) -> Seq<char>
    decreases prefix.len(),
{
    if prefix.len() > 0 && prefix.last() == '/' {
        trimmed(prefix.drop_last())
    } else {
        prefix
    }
}

/// Validate a key prefix and drop its trailing slashes.
pub fn normalize_prefix(prefix: &str) -> (r: Result<String, CoordinationError>)
    ensures
        match r {
            Ok(text) => text@ == trimmed(prefix@) && text@.len() > 0 && !text@.contains('\0'),
            Err(error) => (trimmed(prefix@).len() == 0 || trimmed(prefix@).contains('\0'))
                && error@ == CoordinationFault::InvalidPrefix,
        },
{
    let cs = text::chars_of(prefix);
    let mut n: usize = cs.len();
    assert(cs@.take(n as int) =~= cs@);
    while n > 0 && cs[n - 1] == '/'
        invariant
            n <= cs@.len(),
            cs@ == prefix@,
            trimmed(cs@.take(n as int)) == trimmed(prefix@),
        decreases n,
    {
        assert(cs@.take(n as int).drop_last() =~= cs@.take(n - 1));
        n = n - 1;
    }
    let out = text::text_from(&cs, 0, n);
    proof {
        assert(cs@.subrange(0, n as int) =~= cs@.take(n as int));
        if n > 0 {
            assert(cs@.take(n as int).last() == cs@[n - 1]);
        }
    }
    if n == 0 || text::has_char(out.as_str(), '\0') {
        return Err(CoordinationError::InvalidPrefix);
    }
    Ok(out)
}

/// One coordination namespace: the key prefix and the cluster it is for.
#[derive(Clone, Debug, PartialEq, Eq)]
pub struct EtcdNamespace {
    prefix: String,
    cluster: String,
}

/// What a namespace says.
#[verifier::ext_equal]
pub struct NamespaceView {
    pub prefix: Seq<char>,
    pub cluster: Seq<char>,
}

impl View for EtcdNamespace {
    type V = NamespaceView;

    closed spec fn view(&self) -> NamespaceView {
        NamespaceView { prefix: self.prefix@, cluster: self.cluster@ }
    }
}

impl EtcdNamespace {
    /// Validate the prefix and the cluster of a namespace.
    pub fn new(prefix: &str, cluster: &str) -> (r: Result<EtcdNamespace, CoordinationError>)
        ensures
            match r {
                Ok(namespace) => {
                    &&& namespace@ == (NamespaceView {
                        prefix: trimmed(prefix@),
                        cluster: cluster@,
                    })
                    &&& trimmed(prefix@).len() > 0
                    &&& !trimmed(prefix@).contains('\0')
                    &&& !text::blank(cluster@)
                    &&& !cluster@.contains('\0')
                },
                Err(error) => error@ == if trimmed(prefix@).len() == 0 || trimmed(
                    prefix@,
                ).contains('\0') {
                    CoordinationFault::InvalidPrefix
                } else {
                    CoordinationFault::InvalidCluster
                } && (trimmed(prefix@).len() == 0 || trimmed(prefix@).contains('\0')
                    || text::blank(cluster@) || cluster@.contains('\0')),
            },
    {
        let prefix = match normalize_prefix(prefix) {
            Ok(prefix) => prefix,
            Err(error) => {
                return Err(error);
            },
        };
        if text::is_blank(cluster) || text::has_char(cluster, '\0') {
            return Err(CoordinationError::InvalidCluster);
        }
        Ok(EtcdNamespace { prefix, cluster: cluster.to_owned() })
    }

    /// Return the logical cluster name.
    pub fn cluster(&self) -> (r: &str)
        ensures
            r@ == self@.cluster,
    {
        self.cluster.as_str()
    }

    /// Return the key prefix.
    pub fn namespace(&self) -> (r: &str)
        ensures
            r@ == self@.prefix,
    {
        self.prefix.as_str()
    }

    /// A key of this namespace.
    pub fn namespaced_key(&self, suffix: &str) -> (r: String)
        ensures
            r@ == key_at(self@.prefix, suffix@),
    {
        self.prefix.clone().concat("/").concat(suffix)
    }

    /// The key of a metadata entry.
    pub fn metadata_key(&self, key: &str) -> (r: String)
        ensures
            r@ == metadata_key_at(self@.prefix, key@),
    {
        let suffix = "metadata/".to_owned().concat(encode_segment(key).as_str());
        self.namespaced_key(suffix.as_str())
    }

    /// The key of the active controller.
    pub fn controller_active_key(&self) -> (r: String)
        ensures
            r@ == key_at(self@.prefix, "controller/election/active"@),
    {
        self.namespaced_key("controller/election/active")
    }

    /// The key of a controller candidate.
    pub fn controller_candidate_key(&self, controller_id: &str) -> (r: String)
        ensures
            r@ == candidate_key_at(self@.prefix, controller_id@),
    {
        let suffix = "controller/election/candidates/".to_owned().concat(
            encode_segment(controller_id).as_str(),
        );
        self.namespaced_key(suffix.as_str())
    }

    /// The key that says which session of an instance is live.
    pub fn live_key(&self, instance: &InstanceId) -> (r: String)
        ensures
            r@ == live_key_at(self@.prefix, instance@),
    {
        let suffix = "live/".to_owned().concat(encode_segment(instance.as_str()).as_str());
        self.namespaced_key(suffix.as_str())
    }

    /// The prefix of the keys that mark the sessions of an instance.
    pub fn session_prefix(&self, instance: &InstanceId) -> (r: String)
        ensures
            r@ == session_prefix_at(self@.prefix, instance@),
    {
        let suffix = "sessions/".to_owned().concat(
            encode_segment(instance.as_str()).as_str(),
        ).concat("/");
        self.namespaced_key(suffix.as_str())
    }

    /// The key that marks a session of an instance.
    pub fn session_key(&self, instance: &InstanceId, session: SessionId) -> (r: String)
        ensures
            r@ == session_key_at(self@.prefix, instance@, session@),
    {
        self.session_prefix(instance).concat(session_text(session).as_str())
    }

    /// The prefix of the current-state keys of a session.
    pub fn current_state_session_prefix(
        &self,
        instance: &InstanceId,
        session: SessionId,
    ) -> (r: String)
        ensures
            r@ == current_state_prefix_at(self@.prefix, instance@, session@),
    {
        let suffix = "current-state/".to_owned().concat(
            encode_segment(instance.as_str()).as_str(),
        ).concat("/").concat(session_text(session).as_str()).concat("/");
        self.namespaced_key(suffix.as_str())
    }

    /// The key of the current state of a replica under a session.
    pub fn current_state_key(
        &self,
        instance: &InstanceId,
        session: SessionId,
        resource: &ResourceId,
        partition: &PartitionId,
    ) -> (r: String)
        ensures
            r@ == current_state_key_at(
                self@.prefix,
                instance@,
                session@,
                resource@,
                partition@,
            ),
    {
        self.current_state_session_prefix(instance, session).concat(
            encode_segment(resource.as_str()).as_str(),
        ).concat("/").concat(encode_segment(partition.as_str()).as_str())
    }

    /// What follows the prefix in a raw key.
    pub fn parse_relative_key(&self, key: &Vec<u8>) -> (r: Result<String, CoordinationError>)
        ensures
            match r {
                Ok(suffix) => relative_of(self@.prefix, key@) == Ok::<Seq<char>, CoordinationFault>(
                    suffix@,
                ),
                Err(error) => relative_of(self@.prefix, key@) == Err::<Seq<char>, CoordinationFault>(
                    error@,
                ),
            },
    {
        let text = match utf8_text(copy_bytes(key)) {
            Some(text) => text,
            None => {
                return Err(CoordinationError::InvalidKey);
            },
        };
        let prefix = self.prefix.clone().concat("/");
        match text::strip_prefix(text.as_str(), prefix.as_str()) {
            Some(suffix) => Ok(suffix),
            None => Err(CoordinationError::OutsidePrefix),
        }
    }
}

} // verus!
