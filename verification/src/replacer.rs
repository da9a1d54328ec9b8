//! The compound replacer: any number of pattern and replacement pairs merged
//! into one regular expression, and applied to a text in a single pass.
//!
//! Each rule's pattern becomes one alternative of the compound pattern,
//! wrapped in a named group that serves as the rule's tag. After a match the
//! tag that took part tells which rule fired.

use crate::engine::{regex_captures, regex_compiles, regex_origin, scan};
use crate::splice::{
    assemble, first_fired, hits_view, lemma_first_fired, lemma_no_rules_is_identity, splice,
    texts, Hit, HitView,
};
use regex::Regex;
use vstd::prelude::*;
use vstd::string::StringExecFns;

verus! {

/// The character of a digit below ten.
pub open spec fn digit_char(d: nat) -> char {
    if d == 0 {
        '0'
    } else if d == 1 {
        '1'
    } else if d == 2 {
        '2'
    } else if d == 3 {
        '3'
    } else if d == 4 {
        '4'
    } else if d == 5 {
        '5'
    } else if d == 6 {
        '6'
    } else if d == 7 {
        '7'
    } else if d == 8 {
        '8'
    } else {
        '9'
    }
}

/// The decimal numeral of `n`, without leading zeros.
pub open spec fn decimal(n: nat) -> Seq<char>
    decreases n,
{
    if n < 10 {
        seq![digit_char(n)]
    } else {
        decimal(n / 10) + seq![digit_char(n % 10)]
    }
}

/// The tag of the rule with index `i`: the name of the group that wraps its
/// pattern.
pub open spec fn group_name(i: nat) -> Seq<char> {
    "_group"@ + decimal(i)
}

/// The tags of the first `n` rules.
pub open spec fn group_names(n: nat) -> Seq<Seq<char>> {
    Seq::new(n, |i: int| group_name(i as nat))
}

/// The pattern of rule `i` as an alternative of the compound pattern.
pub open spec fn tagged(i: nat, pattern: Seq<char>) -> Seq<char> {
    "(?P<"@ + group_name(i) + ">"@ + pattern + ")"@
}

/// The alternation of the first `upto` patterns, each wrapped in its tag.
pub open spec fn alternation(patterns: Seq<Seq<char>>, upto: nat) -> Seq<char>
    decreases upto,
{
    if upto == 0 {
        Seq::empty()
    } else if upto == 1 {
        tagged(0, patterns[0])
    } else {
        alternation(patterns, (upto - 1) as nat) + "|"@ + tagged(
            (upto - 1) as nat,
            patterns[upto - 1],
        )
    }
}

/// The compound pattern of a rule list.
pub open spec fn combined_pattern(patterns: Seq<Seq<char>>) -> Seq<char> {
    alternation(patterns, patterns.len())
}

/// The index of the first pattern that does not compile on its own.
pub open spec fn first_rejected(patterns: Seq<Seq<char>>) -> Option<int> {
    first_fired(patterns.map_values(|p: Seq<char>| !regex_compiles(p)))
}

/// The pattern on which compiling a rule list fails: the first pattern that
/// does not compile on its own or, where each does, the compound pattern if
/// that one does not compile. `None` where the rule list compiles, as the
/// empty one always does.
pub open spec fn offending_pattern(patterns: Seq<Seq<char>>) -> Option<Seq<char>> {
    match first_rejected(patterns) {
        Some(i) => Some(patterns[i]),
        None => if patterns.len() == 0 || regex_compiles(combined_pattern(patterns)) {
            None
        } else {
            Some(combined_pattern(patterns))
        },
    }
}

/// The text that a compiled rule list makes of `text`: the matches of the
/// compound pattern, in one pass from left to right, each replaced by the
/// replacement of the rule whose tag fired.
pub open spec fn replaced(
    patterns: Seq<Seq<char>>,
    replacements: Seq<Seq<char>>,
    text: Seq<char>,
) -> Seq<char> {
    splice(
        text,
        0,
        regex_captures(combined_pattern(patterns), group_names(patterns.len()), text),
        replacements,
    )
}

/// The patterns of a list of pairs.
pub open spec fn patterns_of(pairs: Seq<(String, String)>) -> Seq<Seq<char>> {
    pairs.map_values(|p: (String, String)| p.0@)
}

/// The replacements of a list of pairs.
pub open spec fn replacements_of(pairs: Seq<(String, String)>) -> Seq<Seq<char>> {
    pairs.map_values(|p: (String, String)| p.1@)
}

/// A numeral has at least one digit.
proof fn lemma_decimal_is_not_empty(n: nat)
    ensures
        decimal(n).len() >= 1,
        n >= 10 ==> decimal(n).len() >= 2,
    decreases n,
{
    if n >= 10 {
        lemma_decimal_is_not_empty(n / 10);
    }
}

/// Different numbers have different numerals.
pub proof fn lemma_decimal_is_injective(a: nat, b: nat)
    requires
        decimal(a) == decimal(b),
    ensures
        a == b,
    decreases a,
{
    lemma_decimal_is_not_empty(a);
    lemma_decimal_is_not_empty(b);
    if a < 10 {
        assert(decimal(a)[0] == digit_char(a));
        assert(decimal(b)[0] == digit_char(b));
    } else {
        let high_a = decimal(a / 10);
        let high_b = decimal(b / 10);
        assert(decimal(a).last() == digit_char(a % 10));
        assert(decimal(b).last() == digit_char(b % 10));
        assert(decimal(a).drop_last() =~= high_a);
        assert(decimal(b).drop_last() =~= high_b);
        lemma_decimal_is_injective(a / 10, b / 10);
    }
}

/// Each rule has a tag of its own: the tags of two different rules differ.
pub proof fn lemma_tags_are_unique(i: nat, j: nat)
    requires
        i != j,
    ensures
        group_name(i) != group_name(j),
{
    if group_name(i) == group_name(j) {
        let prefix = "_group"@;
        assert(group_name(i).skip(prefix.len() as int) =~= decimal(i));
        assert(group_name(j).skip(prefix.len() as int) =~= decimal(j));
        lemma_decimal_is_injective(i, j);
    }
}

/// An empty rule list replaces nothing.
pub proof fn lemma_zero_rules(text: Seq<char>)
    ensures
        replaced(Seq::empty(), Seq::empty(), text) == text,
{
    let none = Seq::<Seq<char>>::empty();
    lemma_no_rules_is_identity(
        text,
        regex_captures(combined_pattern(none), group_names(none.len()), text),
    );
}

/// A rule list that could not be compiled, with the pattern that was refused.
#[derive(Debug, Clone)]
pub struct CompileError {
    pub pattern: String,
}

/// A compiled rule list. The compound pattern is compiled once, when the
/// list is made; a list without rules needs none.
#[derive(Debug)]
pub struct CompoundReplacer {
    compound_re: Option<Regex>,
    group_names: Vec<String>,
    patterns: Vec<String>,
    replacements: Vec<String>,
}

fn digit_text(d: usize) -> (r: &'static str)
    requires
        d < 10,
    ensures
        r@ == seq![digit_char(d as nat)],
{
    proof {
        reveal_strlit("0");
        reveal_strlit("1");
        reveal_strlit("2");
        reveal_strlit("3");
        reveal_strlit("4");
        reveal_strlit("5");
        reveal_strlit("6");
        reveal_strlit("7");
        reveal_strlit("8");
        reveal_strlit("9");
    }
    let r = if d == 0 {
        "0"
    } else if d == 1 {
        "1"
    } else if d == 2 {
        "2"
    } else if d == 3 {
        "3"
    } else if d == 4 {
        "4"
    } else if d == 5 {
        "5"
    } else if d == 6 {
        "6"
    } else if d == 7 {
        "7"
    } else if d == 8 {
        "8"
    } else {
        "9"
    };
    assert(r@ =~= seq![digit_char(d as nat)]);
    r
}

/// Writes `n` as a decimal numeral.
pub fn decimal_string(n: usize) -> (r: String)
    ensures
        r@ == decimal(n as nat),
    decreases n,
{
    if n < 10 {
        String::from_str(digit_text(n))
    } else {
        let mut r = decimal_string(n / 10);
        r.append(digit_text(n % 10));
        r
    }
}

/// Makes the tags of the first `n` rules.
pub fn make_group_names(n: usize) -> (names: Vec<String>)
    ensures
        texts(names@) == group_names(n as nat),
{
    let mut names: Vec<String> = Vec::new();
    let mut i: usize = 0;
    while i < n
        invariant
            i <= n,
            names.len() == i,
            forall|j: int| 0 <= j < i ==> (#[trigger] names[j])@ == group_name(j as nat),
        decreases n - i,
    {
        let mut name = String::from_str("_group");
        name.append(decimal_string(i).as_str());
        names.push(name);
        i += 1;
    }
    assert(texts(names@) =~= group_names(n as nat));
    names
}

/// Merges the patterns into the compound pattern: one alternative for each,
/// in rule order, wrapped in the group that carries its tag.
pub fn compound_pattern(patterns: &Vec<String>) -> (r: String)
    ensures
        r@ == combined_pattern(texts(patterns@)),
{
    let ghost pats = texts(patterns@);
    let mut r = String::new();
    let mut i: usize = 0;
    while i < patterns.len()
        invariant
            i <= patterns.len(),
            pats == texts(patterns@),
            r@ == alternation(pats, i as nat),
        decreases patterns.len() - i,
    {
        let ghost before = r@;
        if i > 0 {
            r.append("|");
        }
        r.append("(?P<");
        r.append("_group");
        r.append(decimal_string(i).as_str());
        r.append(">");
        r.append(patterns[i].as_str());
        r.append(")");
        proof {
            let wrapped = tagged(i as nat, pats[i as int]);
            assert(pats[i as int] == patterns[i as int]@);
            if i > 0 {
                assert(r@ =~= before + "|"@ + wrapped);
            } else {
                assert(r@ =~= wrapped);
            }
        }
        i += 1;
    }
    r
}

impl CompoundReplacer {
    /// The patterns of the rules, in rule order.
    pub closed spec fn patterns(&self) -> Seq<Seq<char>> {
        texts(self.patterns@)
    }

    /// The replacements of the rules, in rule order.
    pub closed spec fn replacements(&self) -> Seq<Seq<char>> {
        texts(self.replacements@)
    }

    #[verifier::type_invariant]
    spec fn well_formed(&self) -> bool {
        &&& self.patterns@.len() == self.replacements@.len()
        &&& texts(self.group_names@) == group_names(self.patterns@.len())
        &&& match self.compound_re {
            Some(re) => self.patterns@.len() > 0 && regex_origin(&re) == Some(
                combined_pattern(texts(self.patterns@)),
            ),
            None => self.patterns@.len() == 0,
        }
    }

    /// Compiles a rule list. Each pattern must compile on its own, and so must
    /// the compound pattern; otherwise the pattern that was refused comes back
    /// in the error. An empty list always compiles.
    pub fn new(pairs: &Vec<(String, String)>) -> (r: Result<CompoundReplacer, CompileError>)
        ensures
            match r {
                Ok(replacer) => {
                    &&& offending_pattern(patterns_of(pairs@)) is None
                    &&& replacer.patterns() == patterns_of(pairs@)
                    &&& replacer.replacements() == replacements_of(pairs@)
                },
                Err(e) => offending_pattern(patterns_of(pairs@)) == Some(e.pattern@),
            },
            pairs@.len() == 0 ==> r is Ok,
    {
        let ghost pats = patterns_of(pairs@);
        let ghost refused = pats.map_values(|p: Seq<char>| !regex_compiles(p));
        let mut patterns: Vec<String> = Vec::new();
        let mut replacements: Vec<String> = Vec::new();
        let mut i: usize = 0;
        while i < pairs.len()
            invariant
                i <= pairs.len(),
                pats == patterns_of(pairs@),
                refused == pats.map_values(|p: Seq<char>| !regex_compiles(p)),
                patterns.len() == i,
                replacements.len() == i,
                forall|j: int| 0 <= j < i ==> !refused[j],
                forall|j: int| 0 <= j < i ==> (#[trigger] patterns[j])@ == pairs[j].0@,
                forall|j: int| 0 <= j < i ==> (#[trigger] replacements[j])@ == pairs[j].1@,
            decreases pairs.len() - i,
        {
            let pair = &pairs[i];
            match Regex::new(pair.0.as_str()) {
                Ok(_) => {},
                Err(_) => {
                    proof {
                        lemma_first_fired(refused);
                        assert(refused[i as int]);
                    }
                    return Err(CompileError { pattern: pair.0.clone() });
                },
            }
            patterns.push(pair.0.clone());
            replacements.push(pair.1.clone());
            i += 1;
        }
        proof {
            lemma_first_fired(refused);
            assert(texts(patterns@) =~= pats);
            assert(texts(replacements@) =~= replacements_of(pairs@));
        }
        let group_names = make_group_names(patterns.len());
        if patterns.len() == 0 {
            return Ok(CompoundReplacer { compound_re: None, group_names, patterns, replacements });
        }
        let combined = compound_pattern(&patterns);
        match Regex::new(combined.as_str()) {
            Ok(re) => Ok(
                CompoundReplacer { compound_re: Some(re), group_names, patterns, replacements },
            ),
            Err(_) => Err(CompileError { pattern: combined }),
        }
    }

    /// The number of rules.
    pub fn rule_count(&self) -> (n: usize)
        ensures
            n == self.patterns().len(),
            n == self.replacements().len(),
    {
        proof {
            use_type_invariant(self);
        }
        self.patterns.len()
    }

    /// The matches of the compound pattern in `text`, from left to right,
    /// each with the tags that fired in it. Without rules there is nothing to
    /// match.
    pub fn matches(&self, text: &str) -> (hits: Vec<Hit>)
        ensures
            self.patterns().len() == 0 ==> hits@.len() == 0,
            self.patterns().len() > 0 ==> hits_view(hits@) == regex_captures(
                combined_pattern(self.patterns()),
                group_names(self.patterns().len()),
                text@,
            ),
    {
        proof {
            use_type_invariant(self);
        }
        match &self.compound_re {
            Some(re) => scan(re, &self.group_names, text),
            None => Vec::new(),
        }
    }

    /// Applies the rules to `text` in one pass from left to right. Each match
    /// of the compound pattern gives way to the replacement of the rule whose
    /// tag fired; the rest of the text is kept. Nothing is matched against a
    /// replacement. Without rules the text comes back as it is.
    pub fn replace(&self, text: &str) -> (out: String)
        ensures
            out@ == replaced(self.patterns(), self.replacements(), text@),
            self.patterns().len() == 0 ==> out@ == text@,
    {
        proof {
            use_type_invariant(self);
            if self.patterns().len() == 0 {
                assert(self.patterns() =~= Seq::<Seq<char>>::empty());
                assert(self.replacements() =~= Seq::<Seq<char>>::empty());
                lemma_zero_rules(text@);
                lemma_no_rules_is_identity(text@, Seq::empty());
            }
        }
        let hits = self.matches(text);
        proof {
            if self.patterns().len() == 0 {
                assert(hits_view(hits@) =~= Seq::<HitView>::empty());
            }
        }
        assemble(text, &hits, &self.replacements)
    }
}

} // verus!
