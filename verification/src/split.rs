//! Splitting a file name into stem and extension.
//!
//! The extension is the recognised suffix behind a separating dot. Compressed
//! archives (`tar.gz`) and numbered volumes (`7z.001`) count as one extension;
//! otherwise the extension is the last dot-free segment.

use crate::chars::{chars_of, find_last, holds, last_of, lemma_last_of};
use crate::digits::{decimal_digit, is_decimal_digit, lemma_digit_is_not_dot};
use vstd::prelude::*;
use vstd::string::StringExecFns;

verus! {

/// Whether `s` ends with `t`.
pub open spec fn ends_with(s: Seq<char>, t: Seq<char>) -> bool {
    t.len() <= s.len() && s.subrange(s.len() - t.len(), s.len() as int) =~= t
}

/// Where the suffix `t` starts in `s`, if `s` ends with it.
pub open spec fn suffix_dot(s: Seq<char>, t: Seq<char>) -> Option<int> {
    if ends_with(s, t) {
        Some(s.len() - t.len())
    } else {
        None
    }
}

/// Where a numbered volume suffix starts in `s`: `archiver` (with the dots on
/// both sides) followed by exactly three decimal digits at the end of `s`.
pub open spec fn volume_dot(s: Seq<char>, archiver: Seq<char>) -> Option<int> {
    if s.len() >= 3 && decimal_digit(s[s.len() - 3]) && decimal_digit(s[s.len() - 2])
        && decimal_digit(s[s.len() - 1]) {
        suffix_dot(s.take(s.len() - 3), archiver)
    } else {
        None
    }
}

/// The first of two candidates that is present.
pub open spec fn first_of(a: Option<int>, b: Option<int>) -> Option<int> {
    if a is Some {
        a
    } else {
        b
    }
}

/// The separating dot of a compressed tar extension.
pub open spec fn tar_dot(s: Seq<char>) -> Option<int> {
    first_of(
        suffix_dot(s, ".tar.gz"@),
        first_of(suffix_dot(s, ".tar.xz"@), suffix_dot(s, ".tar.bz2"@)),
    )
}

/// The separating dot of a compressed cpio extension.
pub open spec fn cpio_dot(s: Seq<char>) -> Option<int> {
    first_of(suffix_dot(s, ".cpio.gz"@), suffix_dot(s, ".cpio.bz2"@))
}

/// The separating dot of a numbered archive volume.
pub open spec fn numbered_dot(s: Seq<char>) -> Option<int> {
    first_of(volume_dot(s, ".7z."@), first_of(volume_dot(s, ".rar."@), volume_dot(s, ".zip."@)))
}

/// The index of the last dot of `s`.
pub open spec fn last_dot(s: Seq<char>) -> Option<int> {
    last_of(s, '.')
}

/// The last dot of `s`, provided something follows it.
pub open spec fn segment_dot(s: Seq<char>) -> Option<int> {
    match last_dot(s) {
        Some(p) => if p + 1 < s.len() {
            Some(p)
        } else {
            None
        },
        None => None,
    }
}

/// The index of the dot that separates stem and extension: that of the first
/// shape, in priority order, that the end of `s` has.
pub open spec fn split_point(s: Seq<char>) -> Option<int> {
    first_of(tar_dot(s), first_of(cpio_dot(s), first_of(numbered_dot(s), segment_dot(s))))
}

/// The stem of the name `s`.
pub open spec fn stem_of(s: Seq<char>) -> Seq<char> {
    match split_point(s) {
        Some(p) => s.subrange(0, p),
        None => s,
    }
}

/// The extension of the name `s`, without its separating dot.
pub open spec fn extension_of(s: Seq<char>) -> Seq<char> {
    match split_point(s) {
        Some(p) => s.subrange(p + 1, s.len() as int),
        None => Seq::empty(),
    }
}

/// Stem and extension put together again: a dot stands between them unless the
/// extension is empty.
pub open spec fn rejoin(stem: Seq<char>, extension: Seq<char>) -> Seq<char> {
    if extension.len() == 0 {
        stem
    } else {
        stem + seq!['.'] + extension
    }
}

/// Whether `s` holds a dot.
pub open spec fn has_dot(s: Seq<char>) -> bool {
    holds(s, '.')
}

/// A suffix that begins with a dot starts at a dot of `s`.
proof fn lemma_suffix_dot(s: Seq<char>, t: Seq<char>)
    requires
        t.len() >= 2,
        t[0] == '.',
    ensures
        match suffix_dot(s, t) {
            Some(p) => 0 <= p && p + 1 < s.len() && s[p] == '.',
            None => true,
        },
{
    if ends_with(s, t) {
        let p = s.len() - t.len();
        assert(s.subrange(p, s.len() as int)[0] == t[0]);
    }
}

/// A volume suffix whose archiver part begins with a dot starts at a dot.
proof fn lemma_volume_dot(s: Seq<char>, a: Seq<char>)
    requires
        a.len() >= 2,
        a[0] == '.',
    ensures
        match volume_dot(s, a) {
            Some(p) => 0 <= p && p + 1 < s.len() && s[p] == '.',
            None => true,
        },
{
    if volume_dot(s, a) is Some {
        lemma_suffix_dot(s.take(s.len() - 3), a);
    }
}

/// What the recognised suffixes are, character by character.
proof fn lemma_suffix_shapes()
    ensures
        ".tar.gz"@ == seq!['.', 't', 'a', 'r', '.', 'g', 'z'],
        ".tar.xz"@ == seq!['.', 't', 'a', 'r', '.', 'x', 'z'],
        ".tar.bz2"@ == seq!['.', 't', 'a', 'r', '.', 'b', 'z', '2'],
        ".cpio.gz"@ == seq!['.', 'c', 'p', 'i', 'o', '.', 'g', 'z'],
        ".cpio.bz2"@ == seq!['.', 'c', 'p', 'i', 'o', '.', 'b', 'z', '2'],
        ".7z."@ == seq!['.', '7', 'z', '.'],
        ".rar."@ == seq!['.', 'r', 'a', 'r', '.'],
        ".zip."@ == seq!['.', 'z', 'i', 'p', '.'],
{
    reveal_strlit(".tar.gz");
    reveal_strlit(".tar.xz");
    reveal_strlit(".tar.bz2");
    reveal_strlit(".cpio.gz");
    reveal_strlit(".cpio.bz2");
    reveal_strlit(".7z.");
    reveal_strlit(".rar.");
    reveal_strlit(".zip.");
    assert(".tar.gz"@ =~= seq!['.', 't', 'a', 'r', '.', 'g', 'z']);
    assert(".tar.xz"@ =~= seq!['.', 't', 'a', 'r', '.', 'x', 'z']);
    assert(".tar.bz2"@ =~= seq!['.', 't', 'a', 'r', '.', 'b', 'z', '2']);
    assert(".cpio.gz"@ =~= seq!['.', 'c', 'p', 'i', 'o', '.', 'g', 'z']);
    assert(".cpio.bz2"@ =~= seq!['.', 'c', 'p', 'i', 'o', '.', 'b', 'z', '2']);
    assert(".7z."@ =~= seq!['.', '7', 'z', '.']);
    assert(".rar."@ =~= seq!['.', 'r', 'a', 'r', '.']);
    assert(".zip."@ =~= seq!['.', 'z', 'i', 'p', '.']);
}

/// The split point is a dot of the name, and at least one character follows it.
pub proof fn lemma_split_point_is_dot(s: Seq<char>)
    ensures
        match split_point(s) {
            Some(p) => 0 <= p && p + 1 < s.len() && s[p] == '.',
            None => true,
        },
{
    lemma_suffix_shapes();
    lemma_suffix_dot(s, ".tar.gz"@);
    lemma_suffix_dot(s, ".tar.xz"@);
    lemma_suffix_dot(s, ".tar.bz2"@);
    lemma_suffix_dot(s, ".cpio.gz"@);
    lemma_suffix_dot(s, ".cpio.bz2"@);
    lemma_volume_dot(s, ".7z."@);
    lemma_volume_dot(s, ".rar."@);
    lemma_volume_dot(s, ".zip."@);
    lemma_last_of(s, '.');
}

/// Splitting loses nothing: stem and extension, joined by a dot where the
/// extension is not empty, give the name back.
pub proof fn lemma_rejoin(s: Seq<char>)
    ensures
        rejoin(stem_of(s), extension_of(s)) == s,
{
    lemma_split_point_is_dot(s);
    match split_point(s) {
        Some(p) => {
            assert(s.subrange(0, p) + seq!['.'] + s.subrange(p + 1, s.len() as int) =~= s);
        },
        None => {},
    }
}

/// A name without a dot has no extension, and is its own stem.
pub proof fn lemma_no_dot(s: Seq<char>)
    requires
        !has_dot(s),
    ensures
        split_point(s) is None,
        stem_of(s) == s,
        extension_of(s) == Seq::<char>::empty(),
{
    lemma_split_point_is_dot(s);
}

/// A name that ends in a dot has no extension: the dot stays in the stem.
pub proof fn lemma_trailing_dot(s: Seq<char>)
    requires
        s.len() > 0,
        s.last() == '.',
    ensures
        split_point(s) is None,
        stem_of(s) == s,
        extension_of(s) == Seq::<char>::empty(),
{
    lemma_suffix_shapes();
    let n = s.len() as int;
    assert forall|t: Seq<char>| t.len() > 0 && t.last() != '.' implies !ends_with(s, t) by {
        if ends_with(s, t) {
            assert(s.subrange(n - t.len(), n)[t.len() - 1] == t.last());
        }
    }
    assert(".tar.gz"@.last() == 'z');
    assert(".tar.xz"@.last() == 'z');
    assert(".tar.bz2"@.last() == '2');
    assert(".cpio.gz"@.last() == 'z');
    assert(".cpio.bz2"@.last() == '2');
    if n >= 3 && decimal_digit(s[n - 1]) {
        lemma_digit_is_not_dot(s[n - 1]);
    }
}

/// Where the end of the name has none of the compound shapes, the extension
/// is what follows the last dot, and holds no dot itself.
pub proof fn lemma_last_segment(s: Seq<char>)
    requires
        tar_dot(s) is None,
        cpio_dot(s) is None,
        numbered_dot(s) is None,
    ensures
        split_point(s) == segment_dot(s),
        !has_dot(extension_of(s)),
{
    lemma_last_of(s, '.');
    match split_point(s) {
        Some(p) => {
            let e = extension_of(s);
            assert forall|i: int| 0 <= i < e.len() implies e[i] != '.' by {
                assert(e[i] == s[p + 1 + i]);
            }
        },
        None => {},
    }
}

/// Where `s` ends with `t`, the two agree character by character, counted
/// from the end.
proof fn lemma_tail_char(s: Seq<char>, t: Seq<char>, k: int)
    requires
        ends_with(s, t),
        0 <= k < t.len(),
    ensures
        s[s.len() - 1 - k] == t[t.len() - 1 - k],
{
    assert(s.subrange(s.len() - t.len(), s.len() as int)[t.len() - 1 - k] == t[t.len() - 1 - k]);
}

/// The last five characters of `s` are those of a suffix `t` of at least that
/// length.
proof fn lemma_tail(s: Seq<char>, t: Seq<char>)
    requires
        ends_with(s, t),
        t.len() >= 5,
    ensures
        s[s.len() - 1] == t[t.len() - 1],
        s[s.len() - 2] == t[t.len() - 2],
        s[s.len() - 3] == t[t.len() - 3],
        s[s.len() - 4] == t[t.len() - 4],
        s[s.len() - 5] == t[t.len() - 5],
{
    lemma_tail_char(s, t, 0);
    lemma_tail_char(s, t, 1);
    lemma_tail_char(s, t, 2);
    lemma_tail_char(s, t, 3);
    lemma_tail_char(s, t, 4);
}

/// What the last five characters of a name with a compressed archive extension
/// are.
proof fn lemma_compressed_tails(s: Seq<char>)
    ensures
        ends_with(s, ".tar.gz"@) ==> s[s.len() - 1] == 'z' && s[s.len() - 2] == 'g' && s[s.len()
            - 4] == 'r',
        ends_with(s, ".tar.xz"@) ==> s[s.len() - 1] == 'z' && s[s.len() - 2] == 'x' && s[s.len()
            - 4] == 'r',
        ends_with(s, ".tar.bz2"@) ==> s[s.len() - 1] == '2' && s[s.len() - 3] == 'b' && s[s.len()
            - 5] == 'r',
        ends_with(s, ".cpio.gz"@) ==> s[s.len() - 1] == 'z' && s[s.len() - 2] == 'g' && s[s.len()
            - 4] == 'o',
        ends_with(s, ".cpio.bz2"@) ==> s[s.len() - 1] == '2' && s[s.len() - 3] == 'b' && s[s.len()
            - 5] == 'o',
{
    lemma_suffix_shapes();
    if ends_with(s, ".tar.gz"@) {
        lemma_tail(s, ".tar.gz"@);
    }
    if ends_with(s, ".tar.xz"@) {
        lemma_tail(s, ".tar.xz"@);
    }
    if ends_with(s, ".tar.bz2"@) {
        lemma_tail(s, ".tar.bz2"@);
    }
    if ends_with(s, ".cpio.gz"@) {
        lemma_tail(s, ".cpio.gz"@);
    }
    if ends_with(s, ".cpio.bz2"@) {
        lemma_tail(s, ".cpio.bz2"@);
    }
}

/// Whether `t` is one of the compressed archive extensions, with its
/// separating dot.
pub open spec fn is_compressed_shape(t: Seq<char>) -> bool {
    t == ".tar.gz"@ || t == ".tar.xz"@ || t == ".tar.bz2"@ || t == ".cpio.gz"@ || t
        == ".cpio.bz2"@
}

/// Whether `a` is the name of an archiver that numbers its volumes, with the
/// dots on both sides.
pub open spec fn is_archiver(a: Seq<char>) -> bool {
    a == ".7z."@ || a == ".rar."@ || a == ".zip."@
}

/// A name that ends with a compressed archive extension splits in front of it:
/// the two segments are one extension.
pub proof fn lemma_compressed_archive(s: Seq<char>, t: Seq<char>)
    requires
        is_compressed_shape(t),
        ends_with(s, t),
    ensures
        split_point(s) == Some(s.len() - t.len()),
        stem_of(s) == s.take(s.len() - t.len()),
        extension_of(s) == t.skip(1),
{
    lemma_suffix_shapes();
    lemma_compressed_tails(s);
    let p = s.len() - t.len();
    assert(s.subrange(p + 1, s.len() as int) =~= s.subrange(p, s.len() as int).skip(1));
}

/// A name that ends with an archiver's name and a three-digit volume number
/// splits in front of the archiver's name: name and number are one extension.
pub proof fn lemma_numbered_volume(s: Seq<char>, a: Seq<char>)
    requires
        is_archiver(a),
        volume_dot(s, a) is Some,
    ensures
        split_point(s) == Some(s.len() - 3 - a.len()),
        stem_of(s) == s.take(s.len() - 3 - a.len()),
        extension_of(s) == a.skip(1) + s.skip(s.len() - 3),
{
    lemma_suffix_shapes();
    lemma_compressed_tails(s);
    let n = s.len() as int;
    let head = s.take(n - 3);
    let p = n - 3 - a.len();
    if ends_with(head, ".7z."@) {
        lemma_tail_char(head, ".7z."@, 1);
    }
    if ends_with(head, ".rar."@) {
        lemma_tail_char(head, ".rar."@, 1);
    }
    if ends_with(head, ".zip."@) {
        lemma_tail_char(head, ".zip."@, 1);
    }
    assert(s.subrange(p + 1, n) =~= head.subrange(p, n - 3).skip(1) + s.skip(n - 3));
}

/// A name with exactly one dot, which is not its last character, splits at
/// that dot.
pub proof fn lemma_single_dot(s: Seq<char>, p: int)
    requires
        0 <= p,
        p + 1 < s.len(),
        s[p] == '.',
        forall|j: int| 0 <= j < s.len() && j != p ==> s[j] != '.',
    ensures
        split_point(s) == Some(p),
        stem_of(s) == s.take(p),
        extension_of(s) == s.skip(p + 1),
{
    lemma_suffix_shapes();
    let n = s.len() as int;
    if ends_with(s, ".tar.gz"@) {
        lemma_tail_char(s, ".tar.gz"@, 2);
        lemma_tail_char(s, ".tar.gz"@, 6);
    }
    if ends_with(s, ".tar.xz"@) {
        lemma_tail_char(s, ".tar.xz"@, 2);
        lemma_tail_char(s, ".tar.xz"@, 6);
    }
    if ends_with(s, ".tar.bz2"@) {
        lemma_tail_char(s, ".tar.bz2"@, 3);
        lemma_tail_char(s, ".tar.bz2"@, 7);
    }
    if ends_with(s, ".cpio.gz"@) {
        lemma_tail_char(s, ".cpio.gz"@, 2);
        lemma_tail_char(s, ".cpio.gz"@, 7);
    }
    if ends_with(s, ".cpio.bz2"@) {
        lemma_tail_char(s, ".cpio.bz2"@, 3);
        lemma_tail_char(s, ".cpio.bz2"@, 8);
    }
    if n >= 3 {
        let head = s.take(n - 3);
        if ends_with(head, ".7z."@) {
            lemma_tail_char(head, ".7z."@, 0);
            lemma_tail_char(head, ".7z."@, 3);
        }
        if ends_with(head, ".rar."@) {
            lemma_tail_char(head, ".rar."@, 0);
            lemma_tail_char(head, ".rar."@, 4);
        }
        if ends_with(head, ".zip."@) {
            lemma_tail_char(head, ".zip."@, 0);
            lemma_tail_char(head, ".zip."@, 4);
        }
    }
    crate::chars::lemma_last_of_is_unique(s, '.', p);
}

/// Finds where `suffix` starts in the first `end` characters of `cs`, if they
/// end with it.
fn suffix_start(cs: &Vec<char>, end: usize, suffix: &str) -> (r: Option<usize>)
    requires
        end <= cs.len(),
    ensures
        match r {
            Some(p) => suffix_dot(cs@.take(end as int), suffix@) == Some(p as int),
            None => suffix_dot(cs@.take(end as int), suffix@) is None,
        },
{
    let t = chars_of(suffix);
    let m: usize = t.len();
    if m > end {
        return None;
    }
    let start: usize = end - m;
    let ghost head = cs@.take(end as int);
    let mut i: usize = 0;
    while i < m
        invariant
            i <= m,
            start + m == end,
            end <= cs.len(),
            m == t.len(),
            t@ == suffix@,
            head == cs@.take(end as int),
            forall|j: int| 0 <= j < i ==> cs[start + j] == t[j],
        decreases m - i,
    {
        if cs[start + i] != t[i] {
            proof {
                if ends_with(head, t@) {
                    assert(head.subrange(head.len() - t@.len(), head.len() as int)[i as int]
                        == t@[i as int]);
                }
            }
            return None;
        }
        i += 1;
    }
    assert(head.subrange(start as int, end as int) =~= t@);
    Some(start)
}

/// Finds where a numbered volume suffix with the given archiver part starts.
fn volume_start(cs: &Vec<char>, archiver: &str) -> (r: Option<usize>)
    ensures
        match r {
            Some(p) => volume_dot(cs@, archiver@) == Some(p as int),
            None => volume_dot(cs@, archiver@) is None,
        },
{
    let n: usize = cs.len();
    if n >= 3 && is_decimal_digit(cs[n - 3]) && is_decimal_digit(cs[n - 2]) && is_decimal_digit(
        cs[n - 1],
    ) {
        suffix_start(cs, n - 3, archiver)
    } else {
        None
    }
}

/// Finds the last dot of `cs` that something follows.
fn segment_start(cs: &Vec<char>) -> (r: Option<usize>)
    ensures
        match r {
            Some(p) => segment_dot(cs@) == Some(p as int),
            None => segment_dot(cs@) is None,
        },
{
    match find_last(cs, '.') {
        Some(p) => if p + 1 < cs.len() {
            Some(p)
        } else {
            None
        },
        None => None,
    }
}

/// Finds the dot that separates stem and extension.
pub fn find_split(cs: &Vec<char>) -> (r: Option<usize>)
    ensures
        match r {
            Some(p) => split_point(cs@) == Some(p as int),
            None => split_point(cs@) is None,
        },
{
    let n: usize = cs.len();
    assert(cs@.take(n as int) =~= cs@);
    let mut found: Option<usize> = suffix_start(cs, n, ".tar.gz");
    if found.is_none() {
        found = suffix_start(cs, n, ".tar.xz");
    }
    if found.is_none() {
        found = suffix_start(cs, n, ".tar.bz2");
    }
    if found.is_none() {
        found = suffix_start(cs, n, ".cpio.gz");
    }
    if found.is_none() {
        found = suffix_start(cs, n, ".cpio.bz2");
    }
    if found.is_none() {
        found = volume_start(cs, ".7z.");
    }
    if found.is_none() {
        found = volume_start(cs, ".rar.");
    }
    if found.is_none() {
        found = volume_start(cs, ".zip.");
    }
    if found.is_none() {
        found = segment_start(cs);
    }
    found
}

/// Splits a file name into its stem and its extension. The extension comes
/// without the separating dot, and is empty where the name has none.
pub fn split_filename(filename: &str) -> (r: (String, String))
    ensures
        r.0@ == stem_of(filename@),
        r.1@ == extension_of(filename@),
        rejoin(r.0@, r.1@) == filename@,
{
    let cs = chars_of(filename);
    proof {
        lemma_split_point_is_dot(filename@);
        lemma_rejoin(filename@);
    }
    match find_split(&cs) {
        Some(p) => {
            assert(p + 1 < cs.len());
            let stem = filename.substring_char(0, p);
            let extension = filename.substring_char(p + 1, cs.len());
            (String::from_str(stem), String::from_str(extension))
        },
        None => (String::from_str(filename), String::new()),
    }
}

} // verus!
