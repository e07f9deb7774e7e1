//! Where the base64 text of an image can stand in its description: nowhere but in the
//! quoted name and the quoted digest.

use crate::digest;
use crate::models::image;
use crate::models::image::ImageView;
use crate::text;
use vstd::prelude::*;

verus! {

/// Whether a pattern stands nowhere in a text.
spec fn absent(s: Seq<char>, pat: Seq<char>) -> bool {
    forall|i: int| !#[trigger] text::occurs_at(s, pat, i)
}

/// Whether a text consists of base64 characters.
spec fn is_base64(s: Seq<char>) -> bool {
    forall|i: int| 0 <= i < s.len() ==> digest::is_base64_char(#[trigger] s[i])
}

/// Base64 text takes one byte for each character.
pub proof fn lemma_ascii_len(s: Seq<char>)
    requires
        forall|i: int| 0 <= i < s.len() ==> digest::is_base64_char(#[trigger] s[i]),
    ensures
        text::utf8_len(s) == s.len(),
{
    lemma_ascii_prefix(s, s.len() as int);
    assert(s.take(s.len() as int) =~= s);
}

proof fn lemma_ascii_prefix(s: Seq<char>, n: int)
    requires
        is_base64(s),
        0 <= n <= s.len(),
    ensures
        text::utf8_len(s.take(n)) == n,
    decreases n,
{
    if n == 0 {
        text::lemma_utf8_len_zero(s.take(0));
    } else {
        lemma_ascii_prefix(s, n - 1);
        text::lemma_take_width(s, n - 1);
        assert(digest::is_base64_char(s[n - 1]));
    }
}

/// A pattern without a character of the seam between two texts stands in both together
/// only if it stands in one of them.
proof fn lemma_seam(x: Seq<char>, y: Seq<char>, pat: Seq<char>)
    requires
        absent(x, pat),
        absent(y, pat),
        is_base64(pat),
        (x.len() > 0 && !digest::is_base64_char(x.last())) || (y.len() > 0
            && !digest::is_base64_char(y[0])),
    ensures
        absent(x + y, pat),
{
    assert forall|i: int| !#[trigger] text::occurs_at(x + y, pat, i) by {
        if text::occurs_at(x + y, pat, i) {
            let s = x + y;
            let end = i + pat.len();
            if end <= x.len() {
                assert(x.subrange(i, end) =~= s.subrange(i, end));
                assert(text::occurs_at(x, pat, i));
            } else if i >= x.len() {
                let j = i - x.len();
                assert(y.subrange(j, j + pat.len()) =~= s.subrange(i, end));
                assert(text::occurs_at(y, pat, j));
            } else {
                let k = x.len() - i;
                assert(s.subrange(i, end)[k] == y[0]);
                assert(s.subrange(i, end)[k - 1] == x.last());
                assert(digest::is_base64_char(pat[k]));
                assert(digest::is_base64_char(pat[k - 1]));
            }
        }
    }
}

/// A pattern that is longer than a text stands nowhere in it.
proof fn lemma_longer(s: Seq<char>, pat: Seq<char>)
    requires
        s.len() < pat.len(),
    ensures
        absent(s, pat),
{
}

/// Ten to a power.
spec fn ten_to(k: nat) -> nat
    decreases k,
{
    if k == 0 {
        1
    } else {
        10 * ten_to((k - 1) as nat)
    }
}

proof fn lemma_decimal_len(n: nat, k: nat)
    requires
        k > 0,
        n < ten_to(k),
    ensures
        text::decimal(n).len() <= k,
    decreases k,
{
    if n >= 10 {
        if k == 1 {
            assert(ten_to(0) == 1);
        } else {
            lemma_decimal_len(n / 10, (k - 1) as nat);
        }
    }
}

/// The decimal notation of a number of 32 bits has at most ten digits.
proof fn lemma_short_decimal(n: nat, pat: Seq<char>)
    requires
        n <= u32::MAX,
        pat.len() >= 16,
    ensures
        absent(text::decimal(n), pat),
{
    reveal_with_fuel(ten_to, 11);
    assert(ten_to(10) == 10000000000);
    lemma_decimal_len(n, 10);
    lemma_longer(text::decimal(n), pat);
}

/// The description does not hold the base64 text, unless the quoted name or the quoted
/// digest does.
pub proof fn lemma_description_holds_no_bytes(v: ImageView)
    requires
        forall|i: int|
            0 <= i < v.data_base64.len() ==> digest::is_base64_char(#[trigger] v.data_base64[i]),
        v.data_base64.len() >= 16,
        v.bytes <= u32::MAX,
        !text::contains_text(text::debug_view(v.name), v.data_base64),
        !text::contains_text(text::debug_view(v.digest), v.data_base64),
    ensures
        !text::contains_text(image::debug_spec(v), v.data_base64),
{
    let pat = v.data_base64;
    let name = text::debug_view(v.name);
    let digest = text::debug_view(v.digest);
    assert(absent(name, pat)) by {
        text::lemma_find_from(name, pat, 0);
    }
    assert(absent(digest, pat)) by {
        text::lemma_find_from(digest, pat, 0);
    }
    reveal_strlit("ImageArtifact { name: ");
    reveal_strlit(", media_type: ");
    reveal_strlit(", digest: ");
    reveal_strlit(", bytes: ");
    reveal_strlit(", width: ");
    reveal_strlit(", height: ");
    reveal_strlit(", .. }");
    reveal_strlit("Png");
    reveal_strlit("Jpeg");
    reveal_strlit("WebP");
    let start = "ImageArtifact { name: "@;
    assert(absent(start, pat)) by {
        assert forall|i: int| !#[trigger] text::occurs_at(start, pat, i) by {
            if text::occurs_at(start, pat, i) {
                assert(start.subrange(i, i + pat.len())[13 - i] == ' ');
                assert(digest::is_base64_char(pat[13 - i]));
            }
        }
    }
    let named = start + name;
    lemma_seam(start, name, pat);
    lemma_longer(", media_type: "@, pat);
    lemma_seam(named, ", media_type: "@, pat);
    let typed = named + ", media_type: "@;
    lemma_longer(v.media_type.label_spec(), pat);
    lemma_seam(typed, v.media_type.label_spec(), pat);
    let labelled = typed + v.media_type.label_spec();
    lemma_longer(", digest: "@, pat);
    lemma_seam(labelled, ", digest: "@, pat);
    let digested = labelled + ", digest: "@;
    lemma_seam(digested, digest, pat);
    lemma_longer(", bytes: "@, pat);
    lemma_seam(digested + digest, ", bytes: "@, pat);
    let sized = digested + digest + ", bytes: "@;
    lemma_short_decimal(v.bytes as nat, pat);
    lemma_seam(sized, text::decimal(v.bytes as nat), pat);
    lemma_longer(", width: "@, pat);
    lemma_seam(sized + text::decimal(v.bytes as nat), ", width: "@, pat);
    let wide = sized + text::decimal(v.bytes as nat) + ", width: "@;
    lemma_short_decimal(v.width as nat, pat);
    lemma_seam(wide, text::decimal(v.width as nat), pat);
    lemma_longer(", height: "@, pat);
    lemma_seam(wide + text::decimal(v.width as nat), ", height: "@, pat);
    let high = wide + text::decimal(v.width as nat) + ", height: "@;
    lemma_short_decimal(v.height as nat, pat);
    lemma_seam(high, text::decimal(v.height as nat), pat);
    lemma_longer(", .. }"@, pat);
    lemma_seam(high + text::decimal(v.height as nat), ", .. }"@, pat);
    text::lemma_find_from(image::debug_spec(v), pat, 0);
}

} // verus!
