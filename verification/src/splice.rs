//! Putting a text together again from its matches: what lies between two
//! matches is copied, and each match gives way to the replacement of the
//! first rule whose tag fired in it.
//!
//! Offsets are byte offsets into the UTF-8 form of the text, as a regex
//! engine reports them.

use vstd::prelude::*;
use vstd::string::{StringExecFns, StringSliceAdditionalSpecFns};
use vstd::utf8::*;

verus! {

/// One match of a compound pattern in a text.
#[derive(Debug, Clone)]
pub struct Hit {
    /// Byte offset in the text at which the match starts.
    pub start: usize,
    /// Byte offset in the text just behind the match.
    pub end: usize,
    /// For each tag, in rule order, whether its group took part in the match.
    pub fired: Vec<bool>,
}

/// A match as the contracts see it.
pub struct HitView {
    pub start: int,
    pub end: int,
    pub fired: Seq<bool>,
}

impl View for Hit {
    type V = HitView;

    open spec fn view(&self) -> HitView {
        HitView { start: self.start as int, end: self.end as int, fired: self.fired@ }
    }
}

/// The matches of a vector, as the contracts see them.
pub open spec fn hits_view(hits: Seq<Hit>) -> Seq<HitView> {
    hits.map_values(|h: Hit| h@)
}

/// The strings of a vector, as the contracts see them.
pub open spec fn texts(strings: Seq<String>) -> Seq<Seq<char>> {
    strings.map_values(|s: String| s@)
}

/// The characters of `text` that its bytes from offset `from` up to offset
/// `to` encode.
pub open spec fn span(text: Seq<char>, from: int, to: int) -> Seq<char> {
    decode_utf8(encode_utf8(text).subrange(from, to))
}

/// Whether `at` is a byte offset of `text` at which a character starts or
/// the text ends.
pub open spec fn boundary(text: Seq<char>, at: int) -> bool {
    0 <= at <= encode_utf8(text).len() && is_char_boundary(encode_utf8(text), at)
}

/// The index of the first tag that fired.
pub open spec fn first_fired(fired: Seq<bool>) -> Option<int>
    decreases fired.len(),
{
    if fired.len() == 0 {
        None
    } else if fired[0] {
        Some(0)
    } else {
        match first_fired(fired.drop_first()) {
            Some(i) => Some(i + 1),
            None => None,
        }
    }
}

/// Whether a match can be applied to `text` once everything before byte
/// offset `from` has been dealt with: it lies at or behind `from`, inside the
/// text, and cuts no character in two.
pub open spec fn usable(text: Seq<char>, from: int, hit: HitView) -> bool {
    &&& from <= hit.start <= hit.end
    &&& boundary(text, hit.start)
    &&& boundary(text, hit.end)
}

/// What stands in the output in place of a match: the replacement of the
/// first rule whose tag fired, or the matched text itself where none did.
pub open spec fn emitted(text: Seq<char>, hit: HitView, replacements: Seq<Seq<char>>) -> Seq<char> {
    match first_fired(hit.fired) {
        Some(i) => if i < replacements.len() {
            replacements[i]
        } else {
            span(text, hit.start, hit.end)
        },
        None => span(text, hit.start, hit.end),
    }
}

/// The output for the part of `text` from byte offset `from` on: the matches
/// are taken in order, one that cannot be applied is passed over, and the text
/// before, between and behind them is kept.
pub open spec fn splice(
    text: Seq<char>,
    from: int,
    hits: Seq<HitView>,
    replacements: Seq<Seq<char>>,
) -> Seq<char>
    decreases hits.len(),
{
    if hits.len() == 0 {
        span(text, from, encode_utf8(text).len() as int)
    } else if usable(text, from, hits[0]) {
        span(text, from, hits[0].start) + emitted(text, hits[0], replacements) + splice(
            text,
            hits[0].end,
            hits.drop_first(),
            replacements,
        )
    } else {
        splice(text, from, hits.drop_first(), replacements)
    }
}

/// `first_fired` finds a tag that fired and before which none did.
pub proof fn lemma_first_fired(fired: Seq<bool>)
    ensures
        match first_fired(fired) {
            Some(i) => 0 <= i < fired.len() && fired[i] && forall|j: int| 0 <= j < i ==> !fired[j],
            None => forall|j: int| 0 <= j < fired.len() ==> !fired[j],
        },
    decreases fired.len(),
{
    if fired.len() > 0 && !fired[0] {
        let rest = fired.drop_first();
        lemma_first_fired(rest);
        match first_fired(rest) {
            Some(i) => {
                assert(fired[i + 1] == rest[i]);
                assert forall|j: int| 0 <= j < i + 1 implies !fired[j] by {
                    if j > 0 {
                        assert(fired[j] == rest[j - 1]);
                    }
                }
            },
            None => {
                assert forall|j: int| 0 <= j < fired.len() implies !fired[j] by {
                    if j > 0 {
                        assert(fired[j] == rest[j - 1]);
                    }
                }
            },
        }
    }
}

/// Precedence goes by rule order: where the tags of several rules fired in one
/// match, the replacement of the earliest of them stands in the output, however
/// many later ones fired too.
pub proof fn lemma_earliest_rule_wins(
    text: Seq<char>,
    hit: HitView,
    replacements: Seq<Seq<char>>,
    i: int,
)
    requires
        0 <= i < hit.fired.len(),
        i < replacements.len(),
        hit.fired[i],
        forall|j: int| 0 <= j < i ==> !hit.fired[j],
    ensures
        emitted(text, hit, replacements) == replacements[i],
{
    lemma_first_fired(hit.fired);
}

/// The bytes between two character boundaries are themselves well-formed, and
/// a boundary of the text between them is a boundary there too.
proof fn lemma_between(text: Seq<char>, a: int, b: int, c: int)
    requires
        boundary(text, a),
        boundary(text, b),
        boundary(text, c),
        a <= b <= c,
    ensures
        valid_utf8(encode_utf8(text).subrange(a, c)),
        is_char_boundary(encode_utf8(text).subrange(a, c), b - a),
{
    let bytes = encode_utf8(text);
    encode_utf8_valid_utf8(text);
    valid_utf8_split(bytes, c);
    let head = bytes.subrange(0, c);
    assert(is_char_boundary(head, a)) by {
        if a < c {
            assert(head[a] == bytes[a]);
            is_char_boundary_iff_not_is_continuation_byte(bytes, a);
            is_char_boundary_iff_not_is_continuation_byte(head, a);
        } else {
            is_char_boundary_start_end_of_seq(head);
        }
    }
    valid_utf8_split(head, a);
    let mid = bytes.subrange(a, c);
    assert(head.subrange(a, head.len() as int) =~= mid);
    if a < b && b < c {
        assert(mid[b - a] == bytes[b]);
        is_char_boundary_iff_not_is_continuation_byte(bytes, b);
        is_char_boundary_iff_not_is_continuation_byte(mid, b - a);
    } else {
        is_char_boundary_start_end_of_seq(mid);
    }
}

/// Two adjoining spans make one.
pub proof fn lemma_span_concat(text: Seq<char>, a: int, b: int, c: int)
    requires
        boundary(text, a),
        boundary(text, b),
        boundary(text, c),
        a <= b <= c,
    ensures
        span(text, a, b) + span(text, b, c) == span(text, a, c),
{
    broadcast use group_utf8_lib;

    lemma_between(text, a, b, c);
    let bytes = encode_utf8(text);
    let mid = bytes.subrange(a, c);
    assert(mid.subrange(0, b - a) =~= bytes.subrange(a, b));
    assert(mid.subrange(b - a, mid.len() as int) =~= bytes.subrange(b, c));
    decode_utf8_split(mid, b - a);
}

/// The span over the whole text is the text.
pub proof fn lemma_span_all(text: Seq<char>)
    ensures
        span(text, 0, encode_utf8(text).len() as int) == text,
        boundary(text, 0),
        boundary(text, encode_utf8(text).len() as int),
{
    broadcast use group_utf8_lib;

    let bytes = encode_utf8(text);
    assert(bytes.subrange(0, bytes.len() as int) =~= bytes);
}

/// Whether no rule answers for a match: no tag fired in it, or the first that
/// fired belongs to no replacement.
pub open spec fn untagged(hit: HitView, replacements: Seq<Seq<char>>) -> bool {
    match first_fired(hit.fired) {
        Some(i) => i >= replacements.len(),
        None => true,
    }
}

/// Matches for which no rule answers are copied through: where that holds of
/// every match, what comes out is the rest of the text, wherever the matches
/// lie.
pub proof fn lemma_untagged_matches_pass_through(
    text: Seq<char>,
    from: int,
    hits: Seq<HitView>,
    replacements: Seq<Seq<char>>,
)
    requires
        boundary(text, from),
        forall|k: int| 0 <= k < hits.len() ==> untagged(#[trigger] hits[k], replacements),
    ensures
        splice(text, from, hits, replacements) == span(
            text,
            from,
            encode_utf8(text).len() as int,
        ),
    decreases hits.len(),
{
    if hits.len() > 0 {
        let hit = hits[0];
        let rest = hits.drop_first();
        let end = encode_utf8(text).len() as int;
        lemma_span_all(text);
        assert(untagged(hit, replacements));
        assert forall|k: int| 0 <= k < rest.len() implies untagged(
            #[trigger] rest[k],
            replacements,
        ) by {
            assert(rest[k] == hits[k + 1]);
        }
        if usable(text, from, hit) {
            lemma_untagged_matches_pass_through(text, hit.end, rest, replacements);
            lemma_span_concat(text, from, hit.start, hit.end);
            lemma_span_concat(text, from, hit.end, end);
        } else {
            lemma_untagged_matches_pass_through(text, from, rest, replacements);
        }
    }
}

/// With no rules at all the text comes out unchanged, whatever the matches
/// are.
pub proof fn lemma_no_rules_is_identity(text: Seq<char>, hits: Seq<HitView>)
    ensures
        splice(text, 0, hits, Seq::empty()) == text,
{
    lemma_span_all(text);
    assert forall|k: int| 0 <= k < hits.len() implies untagged(
        #[trigger] hits[k],
        Seq::<Seq<char>>::empty(),
    ) by {
        lemma_first_fired(hits[k].fired);
    }
    lemma_untagged_matches_pass_through(text, 0, hits, Seq::empty());
}

/// Without matches the text comes out unchanged, whatever the replacements
/// are.
pub proof fn lemma_no_match_is_identity(text: Seq<char>, replacements: Seq<Seq<char>>)
    ensures
        splice(text, 0, Seq::empty(), replacements) == text,
{
    lemma_span_all(text);
}

/// The part of `text` between two byte offsets.
fn piece<'a>(text: &'a str, from: usize, to: usize) -> (r: &'a str)
    requires
        from <= to,
        boundary(text@, from as int),
        boundary(text@, to as int),
    ensures
        r@ == span(text@, from as int, to as int),
{
    broadcast use group_utf8_lib;

    proof {
        lemma_between(text@, 0, from as int, to as int);
    }
    let (head, _) = text.split_at(to);
    let (_, part) = head.split_at(from);
    assert(part.spec_bytes() =~= text.spec_bytes().subrange(from as int, to as int));
    part
}

/// Finds the index of the first tag that fired.
pub fn first_set(fired: &Vec<bool>) -> (r: Option<usize>)
    ensures
        match r {
            Some(i) => first_fired(fired@) == Some(i as int),
            None => first_fired(fired@) is None,
        },
{
    let mut i: usize = 0;
    while i < fired.len()
        invariant
            i <= fired.len(),
            forall|j: int| 0 <= j < i ==> !fired[j],
        decreases fired.len() - i,
    {
        if fired[i] {
            proof {
                lemma_first_fired(fired@);
            }
            return Some(i);
        }
        i += 1;
    }
    proof {
        lemma_first_fired(fired@);
    }
    None
}

/// Rebuilds `text` with each match replaced: the text between the matches is
/// kept, and a match gives way to the replacement of the first rule whose tag
/// fired in it. A match in which no tag fired is copied through, and one that
/// cannot be applied (it starts before the end of the one before it, reaches
/// behind the end of the text, or cuts a character in two) is passed over.
pub fn assemble(text: &str, hits: &Vec<Hit>, replacements: &Vec<String>) -> (out: String)
    ensures
        out@ == splice(text@, 0, hits_view(hits@), texts(replacements@)),
{
    let ghost all = hits_view(hits@);
    let ghost reps = texts(replacements@);
    let total: usize = text.as_bytes().len();
    let mut out = String::new();
    let mut from: usize = 0;
    let mut k: usize = 0;
    proof {
        lemma_span_all(text@);
        assert(all.skip(0) =~= all);
    }
    while k < hits.len()
        invariant
            k <= hits.len(),
            all == hits_view(hits@),
            reps == texts(replacements@),
            total == encode_utf8(text@).len(),
            from <= total,
            boundary(text@, from as int),
            out@ + splice(text@, from as int, all.skip(k as int), reps) == splice(
                text@,
                0,
                all,
                reps,
            ),
        decreases hits.len() - k,
    {
        let hit = &hits[k];
        let ghost rest = all.skip(k as int);
        proof {
            assert(rest[0] == hit@);
            assert(rest.drop_first() =~= all.skip(k + 1));
        }
        if from <= hit.start && hit.start <= hit.end && hit.end <= total && text.is_char_boundary(
            hit.start,
        ) && text.is_char_boundary(hit.end) {
            let ghost before = out@;
            out.append(piece(text, from, hit.start));
            let chosen = first_set(&hit.fired);
            let ghost placed = emitted(text@, hit@, reps);
            match chosen {
                Some(i) => {
                    if i < replacements.len() {
                        out.append(replacements[i].as_str());
                    } else {
                        out.append(piece(text, hit.start, hit.end));
                    }
                },
                None => {
                    out.append(piece(text, hit.start, hit.end));
                },
            }
            proof {
                let gap = span(text@, from as int, hit.start as int);
                let tail = splice(text@, hit.end as int, all.skip(k + 1), reps);
                assert(out@ == before + gap + placed);
                assert(before + (gap + placed + tail) =~= before + gap + placed + tail);
            }
            from = hit.end;
        }
        k += 1;
    }
    proof {
        assert(all.skip(k as int).len() == 0);
    }
    out.append(piece(text, from, total));
    out
}

} // verus!
