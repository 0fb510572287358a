//! The grammar engine: an axiom and a set of rewriting rules, and the
//! expansion of the axiom over a number of generations.

use crate::outside::push_char;
use std::collections::HashMap;
use vstd::prelude::*;
use vstd::std_specs::hash::*;
use vstd::string::StringExecFns;

verus! {

broadcast use vstd::std_specs::hash::group_hash_axioms;

/// The key under which the rule of a symbol is kept: its code point.
pub open spec fn rule_key(symbol: char) -> u32 {
    symbol as u32
}

/// What one pass writes in place of `symbol`: the replacement of its rule,
/// or the symbol itself where no rule is bound to it.
pub open spec fn replacement(rules: Map<u32, String>, symbol: char) -> Seq<char> {
    if rules.contains_key(rule_key(symbol)) {
        rules[rule_key(symbol)]@
    } else {
        seq![symbol]
    }
}

/// One rewriting pass over `text`: the replacements of its symbols, from left
/// to right. A replacement is not looked at again within the pass.
pub open spec fn rewrite(rules: Map<u32, String>, text: Seq<char>) -> Seq<char>
    decreases text.len(),
{
    if text.len() == 0 {
        Seq::empty()
    } else {
        rewrite(rules, text.drop_last()) + replacement(rules, text.last())
    }
}

/// `generations` passes over `text`, each on the result of the one before.
pub open spec fn rewrite_times(rules: Map<u32, String>, text: Seq<char>, generations: nat) -> Seq<
    char,
>
    decreases generations,
{
    if generations == 0 {
        text
    } else {
        rewrite(rules, rewrite_times(rules, text, (generations - 1) as nat))
    }
}

/// The rule set that a list of pairs describes: where a symbol occurs more
/// than once, the last pair holds its rule.
pub open spec fn rule_map(pairs: Seq<(char, String)>) -> Map<u32, String>
    decreases pairs.len(),
{
    if pairs.len() == 0 {
        Map::empty()
    } else {
        rule_map(pairs.drop_last()).insert(rule_key(pairs.last().0), pairs.last().1)
    }
}

/// A pass over a text with one more symbol is the pass over the text,
/// followed by what the symbol is replaced with.
pub proof fn lemma_rewrite_push(rules: Map<u32, String>, text: Seq<char>, symbol: char)
    ensures
        rewrite(rules, text.push(symbol)) == rewrite(rules, text) + replacement(rules, symbol),
{
    assert(text.push(symbol).drop_last() =~= text);
}

/// A Lindenmayer system: its axiom, which is the string that it starts from,
/// and its rewriting rules, each kept under the code point of its symbol.
#[derive(Debug, PartialEq)]
pub struct LSystem {
    pub start: String,
    pub rules: HashMap<u32, String>,
}

impl LSystem {
    /// The expansion of the axiom after `generations` passes.
    pub open spec fn expansion(&self, generations: nat) -> Seq<char> {
        rewrite_times(self.rules@, self.start@, generations)
    }

    /// A system with the given axiom and the rules of `rules`; of two rules
    /// for one symbol the later one stands.
    pub fn new(start: &str, rules: &[(char, String)]) -> (system: Self)
        ensures
            system.start@ == start@,
            system.rules@ == rule_map(rules@),
    {
        let mut rule_map: HashMap<u32, String> = HashMap::new();
        let mut i: usize = 0;
        while i < rules.len()
            invariant
                i <= rules.len(),
                rule_map@ == self::rule_map(rules@.take(i as int)),
            decreases rules.len() - i,
        {
            let symbol: char = rules[i].0;
            rule_map.insert(symbol as u32, rules[i].1.clone());
            proof {
                assert(rules@.take(i + 1).drop_last() =~= rules@.take(i as int));
            }
            i += 1;
        }
        proof {
            assert(rules@.take(rules.len() as int) =~= rules@);
        }
        LSystem { start: String::from_str(start), rules: rule_map }
    }

    /// The axiom rewritten `iter` times; with `iter` zero, the axiom itself.
    pub fn expand(&self, iter: usize) -> (expanded: String)
        ensures
            expanded@ == self.expansion(iter as nat),
    {
        self.apply_rules_times(self.start.clone(), iter)
    }

    /// `expression` rewritten `iter` times.
    pub fn apply_rules_times(&self, expression: String, iter: usize) -> (result: String)
        ensures
            result@ == rewrite_times(self.rules@, expression@, iter as nat),
    {
        let mut result = expression;
        let mut i: usize = 0;
        while i < iter
            invariant
                i <= iter,
                result@ == rewrite_times(self.rules@, expression@, i as nat),
            decreases iter - i,
        {
            result = self.apply_rules(result);
            i += 1;
        }
        result
    }

    /// One pass over `expression`: each symbol gives way to the replacement
    /// of its rule, and stays where it has none.
    pub fn apply_rules(&self, expression: String) -> (result: String)
        ensures
            result@ == rewrite(self.rules@, expression@),
    {
        let mut result = String::new();
        for c in it: expression.as_str().chars()
            invariant
                it.seq() == expression@,
                result@ == rewrite(self.rules@, it.seq().take(it.index() as int)),
        {
            proof {
                lemma_rewrite_push(self.rules@, it.seq().take(it.index() as int), c);
                assert(it.seq().take(it.index() + 1) =~= it.seq().take(it.index() as int).push(c));
            }
            let key: u32 = c as u32;
            match self.rules.get(&key) {
                Some(text) => {
                    result.append(text.as_str());
                },
                None => {
                    push_char(&mut result, c);
                    assert(result@ =~= rewrite(self.rules@, it.seq().take(it.index() as int))
                        + seq![c]);
                },
            }
        }
        proof {
            assert(expression@.take(expression@.len() as int) =~= expression@);
        }
        result
    }
}

/// Expansion is a function of the axiom, the rules and the number of
/// generations, and of nothing else: two systems that agree on the first two
/// expand to the same string after the same number of generations.
pub proof fn lemma_expansion_is_deterministic(first: LSystem, second: LSystem, generations: nat)
    requires
        first.start@ == second.start@,
        first.rules@ == second.rules@,
    ensures
        first.expansion(generations) == second.expansion(generations),
{
}

/// No generation leaves the axiom as it is.
pub proof fn lemma_expansion_of_zero(system: LSystem)
    ensures
        system.expansion(0) == system.start@,
{
}

/// Each further generation is one pass over the expansion before it.
pub proof fn lemma_expansion_step(system: LSystem, generations: nat)
    ensures
        system.expansion(generations + 1) == rewrite(
            system.rules@,
            system.expansion(generations),
        ),
{
}

} // verus!
