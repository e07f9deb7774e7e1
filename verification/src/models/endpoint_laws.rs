//! Laws of endpoints: which hosts are reached without encryption.

use crate::models::endpoint;
use crate::models::endpoint::PartsView;
use crate::text;
use crate::tools::patch_text_laws;
use vstd::prelude::*;

verus! {

proof fn lemma_octet(n: nat)
    requires
        n <= 255,
    ensures
        endpoint::is_octet(text::decimal(n)),
        text::digits_value(text::decimal(n)) == n,
        text::free_of(text::decimal(n), '.'),
{
    let s = text::decimal(n);
    patch_text_laws::law_decimal_is_read_back(n);
    reveal_with_fuel(text::decimal, 3);
    if n >= 10 {
        if n < 100 {
            assert(text::decimal(n / 10).len() == 1);
            assert(s[0] == text::digit_spec(n / 10));
        } else {
            assert(n / 100 >= 1 && n / 10 / 10 == n / 100);
            assert(text::decimal(n / 10) == text::decimal(n / 100).push(
                text::digit_spec(n / 10 % 10),
            ));
            assert(s[0] == text::digit_spec(n / 100));
        }
    }
    assert forall|i: int| 0 <= i < s.len() implies #[trigger] s[i] != '.' by {
        assert('0' <= s[i] <= '9');
    }
}

/// An address of version four as it is written.
pub open spec fn address(a: nat, b: nat, c: nat, d: nat) -> Seq<char> {
    text::decimal(a) + seq!['.'] + text::decimal(b) + seq!['.'] + text::decimal(c) + seq!['.']
        + text::decimal(d)
}

/// An address is that of the machine itself if and only if it begins with 127.
pub proof fn law_loopback_addresses_begin_with_127(a: nat, b: nat, c: nat, d: nat)
    requires
        a <= 255,
        b <= 255,
        c <= 255,
        d <= 255,
    ensures
        endpoint::is_loopback_ipv4(address(a, b, c, d)) <==> a == 127,
{
    lemma_octet(a);
    lemma_octet(b);
    lemma_octet(c);
    lemma_octet(d);
    let host = address(a, b, c, d);
    let parts = seq![text::decimal(a), text::decimal(b), text::decimal(c), text::decimal(d)];
    assert(parts.drop_last() =~= seq![text::decimal(a), text::decimal(b), text::decimal(c)]);
    assert(parts.drop_last().drop_last() =~= seq![text::decimal(a), text::decimal(b)]);
    assert(parts.drop_last().drop_last().drop_last() =~= seq![text::decimal(a)]);
    reveal_with_fuel(text::join_spec, 5);
    assert(text::join_spec(parts, seq!['.']) =~= host);
    assert forall|i: int| 0 <= i < parts.len() implies text::free_of(#[trigger] parts[i], '.') by {
        assert(i == 0 || i == 1 || i == 2 || i == 3);
    }
    text::lemma_split_joined(parts, '.');
}

/// An endpoint is private if it is encrypted, or if it is not and its host is the machine
/// itself; any other scheme is refused.
pub proof fn law_only_the_machine_is_reached_in_the_clear(p: PartsView)
    ensures
        p.scheme == "https"@ ==> endpoint::is_private(p),
        p.scheme == "http"@ ==> (endpoint::is_private(p) <==> (p.host matches Some(h)
            && endpoint::is_loopback(h))),
        p.scheme != "https"@ && p.scheme != "http"@ ==> !endpoint::is_private(p),
{
    reveal_strlit("https");
    reveal_strlit("http");
    reveal_strlit("localhost");
    assert("https"@.len() == 5 && "http"@.len() == 4 && "localhost"@.len() == 9);
    let none = Seq::<char>::empty();
    assert(text::split_char(none, '.') =~= seq![none]);
}

/// Slashes at the end of a text are left out, and nothing else.
pub proof fn law_only_slashes_are_left_out(s: Seq<char>)
    ensures
        ({
            let r = endpoint::without_slashes(s);
            &&& r.len() <= s.len()
            &&& r == s.take(r.len() as int)
            &&& r.len() > 0 ==> r.last() != '/'
            &&& forall|i: int| r.len() <= i < s.len() ==> #[trigger] s[i] == '/'
        }),
    decreases s.len(),
{
    if s.len() > 0 && s.last() == '/' {
        law_only_slashes_are_left_out(s.drop_last());
        let r = endpoint::without_slashes(s);
        assert(r =~= s.take(r.len() as int));
        assert forall|i: int| r.len() <= i < s.len() implies #[trigger] s[i] == '/' by {
            if i < s.len() - 1 {
                assert(s.drop_last()[i] == '/');
            }
        }
    } else {
        assert(s.take(s.len() as int) =~= s);
    }
}

} // verus!
