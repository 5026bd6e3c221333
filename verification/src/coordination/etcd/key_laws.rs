//! What holds of the keys of the store.
use crate::coordination::etcd::keys;
use crate::text;
use vstd::prelude::*;
use vstd::utf8::*;

verus! {

/// The value of a digit of a segment.
pub open spec fn digit_of(c: char) -> int {
    if '0' <= c <= '9' {
        c as int - '0' as int
    } else if 'a' <= c <= 'f' {
        c as int - 'a' as int + 10
    } else {
        -1
    }
}

/// Every byte is written as two lower-case hexadecimal digits, the high one
/// first.
pub proof fn bytes_are_two_digits(bytes: Seq<u8>, i: int)
    requires
        0 <= i < bytes.len(),
    ensures
        keys::hex_of(bytes).len() == 2 * bytes.len(),
        digit_of(keys::hex_of(bytes)[2 * i]) * 16 + digit_of(keys::hex_of(bytes)[2 * i + 1])
            == bytes[i],
        0 <= digit_of(keys::hex_of(bytes)[2 * i]) < 16,
        0 <= digit_of(keys::hex_of(bytes)[2 * i + 1]) < 16,
    decreases bytes.len(),
{
    let rest = bytes.drop_last();
    let n = bytes.len() - 1;
    lengths_double(rest);
    if i < n {
        bytes_are_two_digits(rest, i);
        assert(keys::hex_of(bytes)[2 * i] == keys::hex_of(rest)[2 * i]);
        assert(keys::hex_of(bytes)[2 * i + 1] == keys::hex_of(rest)[2 * i + 1]);
    } else {
        let b = bytes.last();
        assert(b / 16 < 16 && b % 16 < 16 && (b / 16) * 16 + b % 16 == b);
    }
}

proof fn lengths_double(bytes: Seq<u8>)
    ensures
        keys::hex_of(bytes).len() == 2 * bytes.len(),
    decreases bytes.len(),
{
    if bytes.len() > 0 {
        lengths_double(bytes.drop_last());
    }
}

/// Where everything is kept under the prefix of a namespace, with every name as
/// a segment and every session as its number.
pub proof fn keys_are_laid_out(
    prefix: Seq<char>,
    name: Seq<char>,
    instance: Seq<char>,
    number: u64,
    resource: Seq<char>,
    partition: Seq<char>,
)
    ensures
        keys::metadata_key_at(prefix, name) == prefix + "/metadata/"@ + keys::hex_of(
            encode_utf8(name),
        ),
        keys::live_key_at(prefix, instance) == prefix + "/live/"@ + keys::hex_of(
            encode_utf8(instance),
        ),
        keys::session_key_at(prefix, instance, number) == prefix + "/sessions/"@ + keys::hex_of(
            encode_utf8(instance),
        ) + "/"@ + text::decimal(number as nat),
        keys::current_state_key_at(prefix, instance, number, resource, partition) == prefix
            + "/current-state/"@ + keys::hex_of(encode_utf8(instance)) + "/"@ + text::decimal(
            number as nat,
        ) + "/"@ + keys::hex_of(encode_utf8(resource)) + "/"@ + keys::hex_of(
            encode_utf8(partition),
        ),
        keys::candidate_key_at(prefix, name) == prefix + "/controller/election/candidates/"@
            + keys::hex_of(encode_utf8(name)),
{
    reveal_strlit("/");
    reveal_strlit("metadata/");
    reveal_strlit("/metadata/");
    reveal_strlit("live/");
    reveal_strlit("/live/");
    reveal_strlit("sessions/");
    reveal_strlit("/sessions/");
    reveal_strlit("current-state/");
    reveal_strlit("/current-state/");
    reveal_strlit("controller/election/candidates/");
    reveal_strlit("/controller/election/candidates/");
    assert(keys::metadata_key_at(prefix, name) =~= prefix + "/metadata/"@ + keys::hex_of(
        encode_utf8(name),
    ));
    assert(keys::live_key_at(prefix, instance) =~= prefix + "/live/"@ + keys::hex_of(
        encode_utf8(instance),
    ));
    assert(keys::session_key_at(prefix, instance, number) =~= prefix + "/sessions/"@ + keys::hex_of(
        encode_utf8(instance),
    ) + "/"@ + text::decimal(number as nat));
    assert(keys::current_state_key_at(prefix, instance, number, resource, partition) =~= prefix
        + "/current-state/"@ + keys::hex_of(encode_utf8(instance)) + "/"@ + text::decimal(
        number as nat,
    ) + "/"@ + keys::hex_of(encode_utf8(resource)) + "/"@ + keys::hex_of(encode_utf8(partition)));
    assert(keys::candidate_key_at(prefix, name) =~= prefix + "/controller/election/candidates/"@
        + keys::hex_of(encode_utf8(name)));
}

/// The prefix of a namespace is given without the slashes at its end.
pub proof fn prefixes_end_without_a_slash(prefix: Seq<char>) -> (k: int)
    ensures
        0 <= k <= prefix.len(),
        keys::trimmed(prefix) == prefix.take(k),
        forall|i: int| k <= i < prefix.len() ==> #[trigger] prefix[i] == '/',
        k > 0 ==> prefix[k - 1] != '/',
    decreases prefix.len(),
{
    if prefix.len() > 0 && prefix.last() == '/' {
        let rest = prefix.drop_last();
        let k = prefixes_end_without_a_slash(rest);
        assert(rest.take(k) =~= prefix.take(k));
        assert forall|i: int| k <= i < prefix.len() implies #[trigger] prefix[i] == '/' by {
            if i < rest.len() {
                assert(rest[i] == prefix[i]);
            }
        }
        if k > 0 {
            assert(rest[k - 1] == prefix[k - 1]);
        }
        k
    } else {
        assert(prefix.take(prefix.len() as int) =~= prefix);
        prefix.len() as int
    }
}

} // verus!
