//! What an exact replacement does to a text.

use crate::text;
use crate::text_laws;
use crate::text_laws::{is_cut, stands_at, woven};
use crate::tools::error::ToolFault;
use crate::tools::registry;
use crate::tools::writing;
use crate::tools::writing::{ReplaceTextView, TextEditView, MAX_EDIT_BYTES};
use vstd::prelude::*;

verus! {

/// Where a text is cut at exactly the expected number of occurrences, the replacement is
/// the pieces with exactly the new text between each two: nothing else changes.
pub proof fn law_replacement_is_exact(
    source: Seq<char>,
    old_text: Seq<char>,
    new: Seq<char>,
    pieces: Seq<Seq<char>>,
)
    requires
        old_text.len() > 0,
        is_cut(source, old_text, pieces),
    ensures
        registry::replaced(source, old_text, new, (pieces.len() - 1) as nat) == Ok::<
            (Seq<char>, nat),
            nat,
        >((woven(pieces, new), (pieces.len() - 1) as nat)),
        forall|expected: nat|
            pieces.len() > 1 && expected != pieces.len() - 1 ==> #[trigger] registry::replaced(
                source,
                old_text,
                new,
                expected,
            ) == Err::<(Seq<char>, nat), nat>((pieces.len() - 1) as nat),
{
    text_laws::law_replacing_exchanges_what_is_between(source, old_text, new, pieces);
}

/// A text with one occurrence keeps what stands before and behind it.
pub proof fn law_one_replacement_keeps_the_rest(
    before: Seq<char>,
    old_text: Seq<char>,
    behind: Seq<char>,
    new: Seq<char>,
)
    requires
        old_text.len() > 0,
        forall|i: int|
            i != before.len() ==> !#[trigger] stands_at(before + old_text + behind, old_text, i),
    ensures
        registry::replaced(before + old_text + behind, old_text, new, 1) == Ok::<
            (Seq<char>, nat),
            nat,
        >((before + new + behind, 1)),
{
    let source = before + old_text + behind;
    let pieces = seq![before, behind];
    assert(pieces.drop_first() =~= seq![behind]);
    assert(woven(seq![behind], old_text) == behind);
    assert(woven(seq![behind], new) == behind);
    assert forall|i: int| i < before.len() implies !#[trigger] stands_at(
        before + old_text,
        old_text,
        i,
    ) by {
        if stands_at(before + old_text, old_text, i) {
            assert forall|k: int| 0 <= k < old_text.len() implies #[trigger] source[i + k]
                == old_text[k] by {
                assert((before + old_text)[i + k] == old_text[k]);
            }
            assert(stands_at(source, old_text, i));
        }
    }
    assert forall|i: int| i < behind.len() implies !#[trigger] stands_at(behind, old_text, i) by {
        if stands_at(behind, old_text, i) {
            let j = before.len() + old_text.len() + i;
            assert forall|k: int| 0 <= k < old_text.len() implies #[trigger] source[j + k]
                == old_text[k] by {
                assert(behind[i + k] == old_text[k]);
            }
            assert(stands_at(source, old_text, j));
        }
    }
    assert(is_cut(source, old_text, pieces));
    law_replacement_is_exact(source, old_text, new, pieces);
}

/// Where a text that spans lines has no occurrence as it is written, it is looked for with
/// the line ends of the source, and the new text gets them, too: the replacement is the
/// pieces between the occurrences found so, with the new text between each two. Another
/// number of occurrences than expected is reported.
pub proof fn law_replacement_follows_the_line_ends(
    source: Seq<char>,
    old_text: Seq<char>,
    new: Seq<char>,
    pieces: Seq<Seq<char>>,
    expected: nat,
)
    requires
        old_text.contains('\r') || old_text.contains('\n'),
        forall|i: int| !#[trigger] stands_at(source, old_text, i),
        is_cut(source, registry::adapted(old_text, registry::line_ending_of(source)), pieces),
        expected > 0,
    ensures
        ({
            let ending = registry::line_ending_of(source);
            let count = (pieces.len() - 1) as nat;
            registry::replaced(source, old_text, new, expected) == if count == expected {
                Ok::<(Seq<char>, nat), nat>(
                    (woven(pieces, registry::adapted(new, ending)), count),
                )
            } else {
                Err(count)
            }
        }),
{
    let ending = registry::line_ending_of(source);
    let other = registry::adapted(old_text, ending);
    law_line_ending_is_that_of_the_source(source);
    let alone = seq![source];
    assert(is_cut(source, old_text, alone));
    text_laws::law_replacing_exchanges_what_is_between(source, old_text, new, alone);
    lemma_adapted_has_ends(old_text, ending);
    if other == old_text {
        text_laws::law_replacing_exchanges_what_is_between(source, other, new, pieces);
    } else {
        text_laws::law_replacing_exchanges_what_is_between(
            source,
            other,
            registry::adapted(new, ending),
            pieces,
        );
    }
}

/// A source is taken to end its lines with a carriage return and a line feed if one of
/// them does, and with a line feed alone otherwise.
pub proof fn law_line_ending_is_that_of_the_source(source: Seq<char>)
    ensures
        (exists|i: int| 0 <= i < source.len() - 1 && #[trigger] source[i] == '\r' && source[i + 1]
            == '\n') ==> registry::line_ending_of(source) == seq!['\r', '\n'],
        !(exists|i: int| 0 <= i < source.len() - 1 && #[trigger] source[i] == '\r' && source[i + 1]
            == '\n') ==> registry::line_ending_of(source) == seq!['\n'],
{
    reveal_strlit("\r\n");
    reveal_strlit("\n");
    assert("\r\n"@ =~= seq!['\r', '\n']);
    assert("\n"@ =~= seq!['\n']);
    let crlf = "\r\n"@;
    text::lemma_find_from(source, crlf, 0);
    if exists|i: int| 0 <= i < source.len() - 1 && #[trigger] source[i] == '\r' && source[i + 1]
        == '\n' {
        let i = choose|i: int|
            0 <= i < source.len() - 1 && #[trigger] source[i] == '\r' && source[i + 1] == '\n';
        assert(source.subrange(i, i + 2) =~= crlf);
        assert(text::occurs_at(source, crlf, i));
    }
    if let Some(i) = text::find_from(source, crlf, 0) {
        assert(source.subrange(i, i + 2)[0] == source[i]);
        assert(source.subrange(i, i + 2)[1] == source[i + 1]);
    }
}

/// Line ends are rewritten one by one, and everything else stays as it is: behind a text,
/// any other character is kept; a carriage return, or a line feed that follows none,
/// becomes the line ending; and a line feed that follows a carriage return is one line end
/// with it.
pub proof fn law_line_ends_are_rewritten(value: Seq<char>, ending: Seq<char>)
    ensures
        registry::adapted(Seq::empty(), ending) == Seq::<char>::empty(),
        forall|c: char|
            c != '\r' && c != '\n' ==> #[trigger] registry::adapted(value.push(c), ending)
                == registry::adapted(value, ending).push(c),
        registry::adapted(value.push('\r'), ending) == registry::adapted(value, ending) + ending,
        registry::adapted(value.push('\n'), ending) == (if value.len() > 0 && value.last() == '\r' {
            registry::adapted(value, ending)
        } else {
            registry::adapted(value, ending) + ending
        }),
{
    reveal_strlit("\r\n");
    reveal_strlit("\r");
    reveal_strlit("\n");
    assert("\r\n"@ =~= seq!['\r', '\n']);
    assert("\r"@ =~= seq!['\r']);
    assert("\n"@ =~= seq!['\n']);
    assert(text::replace_spec(Seq::empty(), "\r\n"@, "\n"@) =~= Seq::<char>::empty());
    assert(text::replace_spec(Seq::empty(), "\r"@, "\n"@) =~= Seq::<char>::empty());
    assert(text::replace_spec(Seq::empty(), "\n"@, ending) =~= Seq::<char>::empty());
    assert forall|c: char| c != '\r' && c != '\n' implies #[trigger] registry::adapted(
        value.push(c),
        ending,
    ) == registry::adapted(value, ending).push(c) by {
        lemma_one_more(value, c, ending);
    }
    lemma_one_more(value, '\r', ending);
    if value.len() > 0 && value.last() == '\r' {
        let w = value.drop_last();
        assert(w.push('\r') =~= value);
        lemma_one_more(w, '\r', ending);
        lemma_crlf_more(w, ending);
        assert(w + seq!['\r', '\n'] =~= value.push('\n'));
    } else {
        lemma_one_more(value, '\n', ending);
    }
}

/// A single character of a pattern lies across no seam.
proof fn lemma_single(a: Seq<char>, b: Seq<char>, c: char, new: Seq<char>)
    ensures
        text::replace_spec(a + b, seq![c], new) == text::replace_spec(a, seq![c], new)
            + text::replace_spec(b, seq![c], new),
{
    text_laws::law_replacing_goes_part_by_part(a, b, seq![c], new);
}

/// What replacing does to a text of one character.
proof fn lemma_of_one(c: char, pat: char, new: Seq<char>)
    ensures
        text::replace_spec(seq![c], seq![pat], new) == (if c == pat {
            new
        } else {
            seq![c]
        }),
        text::replace_spec(seq![c], seq!['\r', '\n'], new) == seq![c],
{
    let s = seq![c];
    let p = seq![pat];
    assert(s.skip(0) =~= s);
    assert(s.subrange(0, 1) =~= s);
    assert(p[0] == pat && s[0] == c);
    assert(text::replace_from(s, p, new, 1) =~= Seq::<char>::empty());
    assert((s =~= p) == (c == pat));
    assert(new + Seq::<char>::empty() =~= new);
    assert(seq![s[0]] + Seq::<char>::empty() =~= s);
}

proof fn lemma_one_more(v: Seq<char>, c: char, ending: Seq<char>)
    requires
        c == '\n' ==> !(v.len() > 0 && v.last() == '\r'),
    ensures
        registry::adapted(v.push(c), ending) == registry::adapted(v, ending) + (if c == '\r' || c
            == '\n' {
            ending
        } else {
            seq![c]
        }),
{
    reveal_strlit("\r\n");
    reveal_strlit("\r");
    reveal_strlit("\n");
    assert("\r\n"@ =~= seq!['\r', '\n']);
    assert("\r"@ =~= seq!['\r']);
    assert("\n"@ =~= seq!['\n']);
    let crlf = seq!['\r', '\n'];
    let lf = seq!['\n'];
    let one = seq![c];
    let s = v + one;
    assert(v.push(c) =~= s);
    assert forall|i: int| i < v.len() && v.len() < i + crlf.len() implies !#[trigger] stands_at(
        s,
        crlf,
        i,
    ) by {
        if stands_at(s, crlf, i) {
            assert(s[i + 0] == crlf[0]);
            assert(s[i + 1] == crlf[1]);
        }
    }
    text_laws::law_replacing_goes_part_by_part(v, one, crlf, lf);
    lemma_of_one(c, '\r', lf);
    let a = text::replace_spec(v, crlf, lf);
    lemma_single(a, one, '\r', lf);
    let b = text::replace_spec(a, seq!['\r'], lf);
    let d = if c == '\r' {
        '\n'
    } else {
        c
    };
    assert(text::replace_spec(one, seq!['\r'], lf) =~= seq![d]);
    lemma_single(b, seq![d], '\n', ending);
    lemma_of_one(d, '\n', ending);
}

proof fn lemma_crlf_more(w: Seq<char>, ending: Seq<char>)
    ensures
        registry::adapted(w + seq!['\r', '\n'], ending) == registry::adapted(w, ending) + ending,
{
    reveal_strlit("\r\n");
    reveal_strlit("\r");
    reveal_strlit("\n");
    assert("\r\n"@ =~= seq!['\r', '\n']);
    assert("\r"@ =~= seq!['\r']);
    assert("\n"@ =~= seq!['\n']);
    let crlf = seq!['\r', '\n'];
    let lf = seq!['\n'];
    let s = w + crlf;
    assert forall|i: int| i < w.len() && w.len() < i + crlf.len() implies !#[trigger] stands_at(
        s,
        crlf,
        i,
    ) by {
        if stands_at(s, crlf, i) {
            assert(s[i + 1] == crlf[1]);
        }
    }
    text_laws::law_replacing_goes_part_by_part(w, crlf, crlf, lf);
    assert(crlf.subrange(0, 2) =~= crlf);
    assert(text::replace_from(crlf, crlf, lf, 2) =~= Seq::<char>::empty());
    assert(text::replace_spec(crlf, crlf, lf) =~= lf);
    let a = text::replace_spec(w, crlf, lf);
    lemma_single(a, lf, '\r', lf);
    lemma_of_one('\n', '\r', lf);
    let b = text::replace_spec(a, seq!['\r'], lf);
    lemma_single(b, lf, '\n', ending);
    lemma_of_one('\n', '\n', ending);
}

/// A text that spans lines still does with other line ends.
proof fn lemma_adapted_has_ends(value: Seq<char>, ending: Seq<char>)
    requires
        value.contains('\r') || value.contains('\n'),
        ending.len() > 0,
    ensures
        registry::adapted(value, ending).len() > 0,
    decreases value.len(),
{
    let w = value.drop_last();
    let c = value.last();
    assert(w.push(c) =~= value);
    law_line_ends_are_rewritten(w, ending);
    if c == '\n' && w.len() > 0 && w.last() == '\r' {
        assert(w.contains('\r'));
        lemma_adapted_has_ends(w, ending);
    }
}

/// `replace_text` makes of a file that is cut at the expected number of occurrences its
/// pieces with exactly the new text between each two; where the file is cut at another
/// number of occurrences, both numbers are reported.
pub proof fn law_replace_text_is_exact(
    request: ReplaceTextView,
    content: Seq<char>,
    pieces: Seq<Seq<char>>,
)
    requires
        request.old.len() > 0,
        is_cut(content, request.old, pieces),
        text::utf8_len(woven(pieces, request.new)) <= MAX_EDIT_BYTES,
    ensures
        request.expected_replacements == pieces.len() - 1 ==> writing::replacement(request, content)
            == Ok::<(Seq<char>, nat), ToolFault>(
            (woven(pieces, request.new), (pieces.len() - 1) as nat),
        ),
        pieces.len() > 1 && request.expected_replacements != pieces.len() - 1
            ==> writing::replacement(request, content) == Err::<(Seq<char>, nat), ToolFault>(
            ToolFault::ReplacementCount {
                expected: request.expected_replacements as nat,
                actual: (pieces.len() - 1) as nat,
            },
        ),
{
    law_replacement_is_exact(content, request.old, request.new, pieces);
}

/// `edit_file` makes its edits one after the other, each of what the edits before it left:
/// an edit that changes something exchanges exactly its occurrences for exactly its new
/// text.
pub proof fn law_edit_file_is_exact(
    content: Seq<char>,
    edits: Seq<TextEditView>,
    i: int,
    pieces: Seq<Seq<char>>,
)
    requires
        0 < i <= edits.len(),
        writing::edited(content, edits, i - 1) is Ok,
        edits[i - 1].old.len() > 0,
        edits[i - 1].old != edits[i - 1].new,
        is_cut(writing::edited(content, edits, i - 1)->Ok_0.0, edits[i - 1].old, pieces),
        edits[i - 1].expected_replacements == pieces.len() - 1 > 0,
        text::utf8_len(woven(pieces, edits[i - 1].new)) <= MAX_EDIT_BYTES,
    ensures
        writing::edited(content, edits, 0) == Ok::<(Seq<char>, nat), ToolFault>((content, 0)),
        writing::edited(content, edits, i) is Ok,
        writing::edited(content, edits, i)->Ok_0.0 == woven(pieces, edits[i - 1].new),
{
    law_replacement_is_exact(
        writing::edited(content, edits, i - 1)->Ok_0.0,
        edits[i - 1].old,
        edits[i - 1].new,
        pieces,
    );
}

} // verus!
