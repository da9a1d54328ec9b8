//! Reading rules: from an argument of the form `pattern=replacement`, or
//! from a text that holds a pattern and its replacement on alternating lines.

use crate::chars::{chars_of, find_last, last_of, lemma_last_of};
use crate::splice::{first_fired, lemma_first_fired, texts};
use vstd::prelude::*;
use vstd::string::StringExecFns;

verus! {

/// The rule that an argument spells out: what stands before its last `=` is
/// the pattern, what stands behind it the replacement. An argument without
/// `=` spells out no rule.
pub open spec fn rule_of(arg: Seq<char>) -> Option<(Seq<char>, Seq<char>)> {
    match last_of(arg, '=') {
        Some(p) => Some((arg.subrange(0, p), arg.subrange(p + 1, arg.len() as int))),
        None => None,
    }
}

/// The index of the first line feed of `s`.
pub open spec fn first_break(s: Seq<char>) -> Option<int> {
    first_fired(s.map_values(|c: char| c == '\n'))
}

/// A line without the carriage return that ended it, if one did.
pub open spec fn without_return(line: Seq<char>) -> Seq<char> {
    if line.len() > 0 && line.last() == '\r' {
        line.drop_last()
    } else {
        line
    }
}

/// The lines of a text. A line ends with a line feed, or with a carriage
/// return and a line feed; neither belongs to the line. What follows the last
/// line feed is a line too, unless it is empty, and is taken as it stands.
///
/// The first line feed always lies inside the text; the test on its index is
/// there to show that the definition comes to an end.
pub open spec fn lines_of(s: Seq<char>) -> Seq<Seq<char>>
    decreases s.len(),
{
    if s.len() == 0 {
        Seq::empty()
    } else {
        match first_break(s) {
            Some(p) => if 0 <= p < s.len() {
                seq![without_return(s.take(p))] + lines_of(s.skip(p + 1))
            } else {
                Seq::empty()
            },
            None => seq![s],
        }
    }
}

/// The rules that a list of lines holds: the lines are taken two by two, the
/// first of each two as pattern and the second as replacement. A last line
/// without a partner is left out.
pub open spec fn paired(lines: Seq<Seq<char>>) -> Seq<(Seq<char>, Seq<char>)> {
    Seq::new(lines.len() / 2, |k: int| (lines[2 * k], lines[2 * k + 1]))
}

/// A list of pairs of strings, as the contracts see it.
pub open spec fn pairs_view(pairs: Seq<(String, String)>) -> Seq<(Seq<char>, Seq<char>)> {
    pairs.map_values(|p: (String, String)| (p.0@, p.1@))
}

/// The pattern of a rule that an argument spells out holds everything up to
/// the last `=`, so the replacement holds no `=`, and pattern, `=` and
/// replacement make up the argument.
pub proof fn lemma_rule_of(arg: Seq<char>)
    ensures
        match rule_of(arg) {
            Some((pattern, replacement)) => {
                &&& pattern + seq!['='] + replacement == arg
                &&& forall|i: int| 0 <= i < replacement.len() ==> replacement[i] != '='
            },
            None => forall|i: int| 0 <= i < arg.len() ==> arg[i] != '=',
        },
{
    lemma_last_of(arg, '=');
    match last_of(arg, '=') {
        Some(p) => {
            let pattern = arg.subrange(0, p);
            let replacement = arg.subrange(p + 1, arg.len() as int);
            assert(pattern + seq!['='] + replacement =~= arg);
            assert forall|i: int| 0 <= i < replacement.len() implies replacement[i] != '=' by {
                assert(replacement[i] == arg[p + 1 + i]);
            }
        },
        None => {},
    }
}

/// Reads an argument as a rule. Returns `None` where it holds no `=`.
pub fn parse_rule(arg: &str) -> (r: Option<(String, String)>)
    ensures
        match r {
            Some(pair) => rule_of(arg@) == Some((pair.0@, pair.1@)),
            None => rule_of(arg@) is None,
        },
{
    let cs = chars_of(arg);
    match find_last(&cs, '=') {
        Some(p) => {
            let pattern = arg.substring_char(0, p);
            let replacement = arg.substring_char(p + 1, cs.len());
            Some((String::from_str(pattern), String::from_str(replacement)))
        },
        None => None,
    }
}

/// Splits a text into its lines.
pub fn split_lines(content: &str) -> (lines: Vec<String>)
    ensures
        texts(lines@) == lines_of(content@),
{
    let cs = chars_of(content);
    let n: usize = cs.len();
    let mut lines: Vec<String> = Vec::new();
    let mut start: usize = 0;
    let mut i: usize = 0;
    proof {
        assert(cs@.skip(0) =~= cs@);
        assert(texts(lines@) + lines_of(cs@) =~= lines_of(cs@));
    }
    while i < n
        invariant
            start <= i <= n,
            n == cs.len(),
            cs@ == content@,
            forall|j: int| start <= j < i ==> cs[j] != '\n',
            texts(lines@) + lines_of(cs@.skip(start as int)) == lines_of(cs@),
        decreases n - i,
    {
        if cs[i] == '\n' {
            let end: usize = if i > start && cs[i - 1] == '\r' {
                i - 1
            } else {
                i
            };
            let line = String::from_str(content.substring_char(start, end));
            let ghost done = texts(lines@);
            let ghost rest = cs@.skip(start as int);
            proof {
                let flags = rest.map_values(|c: char| c == '\n');
                lemma_first_fired(flags);
                assert(flags[i - start]);
                assert forall|j: int| 0 <= j < i - start implies !flags[j] by {
                    assert(rest[j] == cs[start + j]);
                }
                assert(first_break(rest) == Some(i - start));
                assert(rest.skip(i - start + 1) =~= cs@.skip(i + 1));
                assert(rest.take(i - start) =~= cs@.subrange(start as int, i as int));
                assert(without_return(rest.take(i - start)) =~= line@);
            }
            lines.push(line);
            proof {
                assert(texts(lines@) =~= done.push(line@));
                assert(done.push(line@) + lines_of(cs@.skip(i + 1)) =~= done + (seq![line@]
                    + lines_of(cs@.skip(i + 1))));
            }
            start = i + 1;
        }
        i += 1;
    }
    let ghost rest = cs@.skip(start as int);
    if start < n {
        let line = String::from_str(content.substring_char(start, n));
        let ghost done = texts(lines@);
        proof {
            let flags = rest.map_values(|c: char| c == '\n');
            lemma_first_fired(flags);
            assert forall|j: int| 0 <= j < flags.len() implies !flags[j] by {
                assert(rest[j] == cs[start + j]);
            }
            assert(rest =~= line@);
        }
        lines.push(line);
        proof {
            assert(texts(lines@) =~= done + seq![line@]);
        }
    } else {
        proof {
            assert(texts(lines@) + Seq::<Seq<char>>::empty() =~= texts(lines@));
        }
    }
    lines
}

/// Takes the lines two by two as rules.
pub fn rules_from_lines(lines: &Vec<String>) -> (rules: Vec<(String, String)>)
    ensures
        pairs_view(rules@) == paired(texts(lines@)),
{
    let mut rules: Vec<(String, String)> = Vec::new();
    let mut k: usize = 0;
    let pairs: usize = lines.len() / 2;
    while k < pairs
        invariant
            k <= pairs,
            pairs == lines.len() / 2,
            rules.len() == k,
            forall|j: int|
                0 <= j < k ==> (#[trigger] rules[j]).0@ == lines[2 * j]@ && rules[j].1@ == lines[2
                    * j + 1]@,
        decreases pairs - k,
    {
        rules.push((lines[2 * k].clone(), lines[2 * k + 1].clone()));
        k += 1;
    }
    assert(pairs_view(rules@) =~= paired(texts(lines@)));
    rules
}

} // verus!
