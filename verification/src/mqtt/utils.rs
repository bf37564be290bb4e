//! Checks on topic names and filters, shared subscriptions, and client identifiers
//! that the broker makes up.
use rand::Rng;
use vstd::prelude::*;
use vstd::string::StringExecFns;
use vstd::utf8::encode_utf8;

use super::error::MqttProtocolError;
use crate::topic::chars_of;

verus! {

/// The character before position `i`, or NUL at the start.
pub open spec fn char_before(s: Seq<char>, i: int) -> char {
    if i == 0 {
        '\0'
    } else {
        s[i - 1]
    }
}

/// Whether the character at `i` of a topic filter stands where it may: a '+' alone
/// in its level, a '#' alone in the last level.
pub open spec fn wildcard_ok(s: Seq<char>, i: int) -> bool {
    &&& s[i] == '+' ==> (char_before(s, i) == '/' || char_before(s, i) == '\0') && (i + 1
        < s.len() ==> s[i + 1] == '/')
    &&& s[i] == '#' ==> (char_before(s, i) == '/' || char_before(s, i) == '\0') && i + 1
        == s.len()
}

/// Whether `s` may be subscribed to: not empty, at most `max_len` bytes long, and
/// with its wildcards where they may stand.
pub open spec fn sub_topic_ok(s: Seq<char>, max_len: usize) -> bool {
    &&& s.len() > 0
    &&& encode_utf8(s).len() <= max_len
    &&& forall|i: int| 0 <= i < s.len() ==> #[trigger] wildcard_ok(s, i)
}

/// Whether `topic` is a valid topic filter no longer than `max_topic_length` bytes.
pub fn sub_topic_valid(topic: &str, max_topic_length: usize) -> (r: bool)
    ensures
        r == sub_topic_ok(topic@, max_topic_length),
{
    if topic.is_empty() || topic.as_bytes().len() > max_topic_length {
        return false;
    }
    let cs = chars_of(topic);
    let n = cs.len();
    let mut i: usize = 0;
    while i < n
        invariant
            n == cs@.len(),
            cs@ == topic@,
            i <= n,
            topic@.len() > 0,
            encode_utf8(topic@).len() <= max_topic_length,
            forall|j: int| 0 <= j < i ==> #[trigger] wildcard_ok(topic@, j),
        decreases n - i,
    {
        let c = cs[i];
        let prev = if i == 0 {
            '\0'
        } else {
            cs[i - 1]
        };
        if c == '+' {
            if prev != '/' && prev != '\0' {
                assert(!wildcard_ok(topic@, i as int));
                return false;
            }
            if i + 1 < n && cs[i + 1] != '/' {
                assert(!wildcard_ok(topic@, i as int));
                return false;
            }
        } else if c == '#' {
            if prev != '/' && prev != '\0' {
                assert(!wildcard_ok(topic@, i as int));
                return false;
            }
            if i + 1 < n {
                assert(!wildcard_ok(topic@, i as int));
                return false;
            }
        }
        assert(wildcard_ok(topic@, i as int));
        i = i + 1;
    }
    true
}

/// Whether `s` may be published to: not empty, at most 1024 bytes long, without
/// wildcards.
pub open spec fn pub_topic_ok(s: Seq<char>) -> bool {
    &&& s.len() > 0
    &&& encode_utf8(s).len() <= 1024
    &&& !s.contains('+')
    &&& !s.contains('#')
}

/// Whether `topic` is a valid topic name to publish to.
pub fn pub_topic_valid(topic: &str) -> (r: bool)
    ensures
        r == pub_topic_ok(topic@),
{
    if topic.is_empty() || topic.as_bytes().len() > 1024 {
        return false;
    }
    let cs = chars_of(topic);
    let n = cs.len();
    let mut i: usize = 0;
    while i < n
        invariant
            n == cs@.len(),
            cs@ == topic@,
            i <= n,
            topic@.len() > 0,
            encode_utf8(topic@).len() <= 1024,
            forall|j: int| 0 <= j < i ==> topic@[j] != '+' && topic@[j] != '#',
        decreases n - i,
    {
        if cs[i] == '+' || cs[i] == '#' {
            return false;
        }
        i = i + 1;
    }
    true
}

/// The prefix of a shared subscription.
pub open spec fn share_prefix() -> Seq<char> {
    seq!['$', 's', 'h', 'a', 'r', 'e', '/']
}

/// Whether `s` names a shared subscription: it starts with "$share/".
pub open spec fn is_shared(s: Seq<char>) -> bool {
    s.len() >= 7 && s.take(7) == share_prefix()
}

/// Whether `topic` names a shared subscription.
pub fn is_shared_subscription(topic: &str) -> (r: bool)
    ensures
        r == is_shared(topic@),
{
    let cs = chars_of(topic);
    if cs.len() < 7 {
        return false;
    }
    let r = cs[0] == '$' && cs[1] == 's' && cs[2] == 'h' && cs[3] == 'a' && cs[4] == 'r' && cs[5]
        == 'e' && cs[6] == '/';
    assert(r ==> topic@.take(7) =~= share_prefix());
    assert(topic@.take(7) == share_prefix() ==> topic@.take(7)[6] == '/');
    r
}

/// What comes before the first '/' of `r`, and what comes after it.
pub open spec fn split_first_slash(r: Seq<char>) -> Option<(Seq<char>, Seq<char>)>
    decreases r.len(),
{
    if r.len() == 0 {
        None
    } else if r[0] == '/' {
        Some((Seq::empty(), r.drop_first()))
    } else {
        match split_first_slash(r.drop_first()) {
            Some((a, b)) => Some((seq![r[0]] + a, b)),
            None => None,
        }
    }
}

/// The group and the topic filter of a shared subscription "$share/{group}/{filter}":
/// both must be non-empty; the filter may hold further '/'.
pub open spec fn shared_parts(s: Seq<char>) -> Option<(Seq<char>, Seq<char>)> {
    if !is_shared(s) {
        None
    } else {
        match split_first_slash(s.skip(7)) {
            Some((g, t)) => if g.len() > 0 && t.len() > 0 {
                Some((g, t))
            } else {
                None
            },
            None => None,
        }
    }
}

/// Where the first '/' of `r` stands, if it has one.
proof fn lemma_split_first_slash(r: Seq<char>, k: int)
    requires
        0 <= k <= r.len(),
        forall|j: int| 0 <= j < k ==> r[j] != '/',
    ensures
        k < r.len() && r[k] == '/' ==> split_first_slash(r) == Some(
            (r.take(k), r.skip(k + 1)),
        ),
        k == r.len() ==> split_first_slash(r) is None,
    decreases k,
{
    if k > 0 {
        lemma_split_first_slash(r.drop_first(), k - 1);
        assert(r.drop_first().take(k - 1) =~= r.take(k).drop_first());
        assert(seq![r[0]] + r.take(k).drop_first() =~= r.take(k));
        if k < r.len() {
            assert(r.drop_first().skip(k) =~= r.skip(k + 1));
        }
    } else if r.len() > 0 {
        assert(r.take(0) =~= Seq::<char>::empty());
        assert(r.drop_first() =~= r.skip(1));
    }
}

/// The group and the topic filter of the shared subscription `topic`, as
/// `shared_parts` says; `InvalidTopicFilter` when it is not one.
pub fn parse_shared_subscription(topic: &str) -> (r: Result<(&str, &str), MqttProtocolError>)
    ensures
        match shared_parts(topic@) {
            Some((g, t)) => r matches Ok((a, b)) && a@ == g && b@ == t,
            None => r == Err::<(&str, &str), MqttProtocolError>(
                MqttProtocolError::InvalidTopicFilter,
            ),
        },
{
    if !is_shared_subscription(topic) {
        return Err(MqttProtocolError::InvalidTopicFilter);
    }
    let cs = chars_of(topic);
    let n = cs.len();
    let ghost rest = topic@.skip(7);
    let mut k: usize = 7;
    while k < n && cs[k] != '/'
        invariant
            n == cs@.len(),
            cs@ == topic@,
            rest == topic@.skip(7),
            7 <= k <= n,
            forall|j: int| 0 <= j < k - 7 ==> rest[j] != '/',
        decreases n - k,
    {
        k = k + 1;
    }
    proof {
        lemma_split_first_slash(rest, k - 7);
    }
    if k == n {
        return Err(MqttProtocolError::InvalidTopicFilter);
    }
    if k == 7 || k + 1 == n {
        return Err(MqttProtocolError::InvalidTopicFilter);
    }
    let group = topic.substring_char(7, k);
    let filter = topic.substring_char(k + 1, n);
    assert(group@ =~= rest.take(k - 7));
    assert(filter@ =~= rest.skip(k - 7 + 1));
    Ok((group, filter))
}

/// The characters a made-up client identifier is drawn from: upper-case letters,
/// lower-case letters, digits.
pub open spec fn id_charset() -> Seq<char> {
    seq![
        'A', 'B', 'C', 'D', 'E', 'F', 'G', 'H', 'I', 'J', 'K', 'L', 'M', 'N', 'O', 'P', 'Q', 'R', 'S',
        'T', 'U', 'V', 'W', 'X', 'Y', 'Z', 'a', 'b', 'c', 'd', 'e', 'f', 'g', 'h', 'i', 'j', 'k', 'l',
        'm', 'n', 'o', 'p', 'q', 'r', 's', 't', 'u', 'v', 'w', 'x', 'y', 'z', '0', '1', '2', '3', '4',
        '5', '6', '7', '8', '9',
    ]
}

/// The prefix of a made-up client identifier.
pub open spec fn id_prefix() -> Seq<char> {
    seq!['i', 'n', 'n', 'e', 'r', '_']
}

/// Whether `s` is a client identifier the broker may make up: "inner_" and fourteen
/// characters of `id_charset`.
pub open spec fn is_generated_id(s: Seq<char>) -> bool {
    &&& s.len() == 20
    &&& s.take(6) == id_prefix()
    &&& forall|i: int| 6 <= i < 20 ==> id_charset().contains(#[trigger] s[i])
}

/// Calls rand's `rng().random_range(0..n)`: a number drawn from `0..n`. The range is
/// not empty, so the call does not panic; which number comes is chance.
#[verifier::external_body]
fn random_below(n: usize) -> (r: usize)
    requires
        n > 0,
    ensures
        r < n,
{
    rand::rng().random_range(0..n)
}

/// A client identifier for a client that gave none: "inner_" and fourteen random
/// letters and digits.
pub fn generate_random_client_id() -> (r: String)
    ensures
        is_generated_id(r@),
{
    let charset = "ABCDEFGHIJKLMNOPQRSTUVWXYZabcdefghijklmnopqrstuvwxyz0123456789";
    proof {
        reveal_strlit("ABCDEFGHIJKLMNOPQRSTUVWXYZabcdefghijklmnopqrstuvwxyz0123456789");
        reveal_strlit("inner_");
        assert(charset@ =~= id_charset());
    }
    let mut id = "inner_".to_owned();
    assert(id@ =~= id_prefix());
    let mut k: usize = 0;
    while k < 14
        invariant
            charset@ == id_charset(),
            k <= 14,
            id@.len() == 6 + k,
            id@.take(6) == id_prefix(),
            forall|i: int| 6 <= i < 6 + k ==> id_charset().contains(#[trigger] id@[i]),
        decreases 14 - k,
    {
        let idx = random_below(62);
        let piece = charset.substring_char(idx, idx + 1);
        let ghost before = id@;
        id = id.concat(piece);
        assert(id@[6 + k] == charset@[idx as int]);
        assert(id@.take(6) =~= before.take(6));
        assert forall|i: int| 6 <= i < 6 + k + 1 implies id_charset().contains(#[trigger] id@[i]) by {
            if i < 6 + k {
                assert(id@[i] == before[i]);
            } else {
                assert(id_charset()[idx as int] == id@[i]);
            }
        }
        k = k + 1;
    }
    id
}

} // verus!
