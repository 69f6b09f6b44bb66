//! Evaluation of command items to argument strings.
//!
//! Evaluation is lazy with respect to subcommands: the parser never runs
//! anything, and this module does not either.  `subcommand_lines` lists
//! the rendered command line of every subcommand of an item, in order; the
//! caller runs them, captures their standard output, and hands the
//! captured texts to `evaluate_command_item`, which resolves the item to
//! its final argument string.

use vstd::prelude::*;

use crate::syntax::{
    CommandItem, SpecItem, item_view, items_view, lemma_items_view_index, lemma_items_view_len,
    spec_render_tree,
};
use crate::text::{spec_trim_end, str_eq, string_from_chars, to_char_vec, trim_end_chars};

verus! {

// ---------------------------------------------------------------------------
// The variable environment
// ---------------------------------------------------------------------------

/// A mapping from variable names to values, looked up front to back: the
/// pair closest to the front wins.
pub struct VarEnv {
    pub pairs: Vec<(String, String)>,
}

/// The value of `name` among `pairs`: the first matching pair's value.
pub open spec fn spec_lookup(pairs: Seq<(String, String)>, name: Seq<char>) -> Option<Seq<char>>
    decreases pairs,
{
    if pairs.len() == 0 {
        None
    } else if pairs[0].0@ == name {
        Some(pairs[0].1@)
    } else {
        spec_lookup(pairs.drop_first(), name)
    }
}

impl VarEnv {
    /// An environment with no variables.
    pub fn new() -> (r: VarEnv)
        ensures
            r.pairs@.len() == 0,
    {
        VarEnv { pairs: Vec::new() }
    }

    /// The value of `name`, or `None` when the variable is unset.
    pub fn read_variable(&self, name: &str) -> (r: Option<&String>)
        ensures
            match r {
                Some(v) => spec_lookup(self.pairs@, name@) == Some(v@),
                None => spec_lookup(self.pairs@, name@) is None,
            },
    {
        let n = self.pairs.len();
        let mut i: usize = 0;
        proof {
            assert(self.pairs@.skip(0) =~= self.pairs@);
        }
        while i < n
            invariant
                n == self.pairs@.len(),
                i <= n,
                spec_lookup(self.pairs@, name@) == spec_lookup(
                    self.pairs@.skip(i as int),
                    name@,
                ),
            decreases n - i,
        {
            proof {
                assert(self.pairs@.skip(i as int)[0] == self.pairs@[i as int]);
                assert(self.pairs@.skip(i as int).drop_first() =~= self.pairs@.skip(i + 1));
            }
            if str_eq(self.pairs[i].0.as_str(), name) {
                return Some(&self.pairs[i].1);
            }
            i = i + 1;
        }
        None
    }

    /// Makes `name` resolve to `value` until it is set again or removed.
    pub fn set_variable(&mut self, name: String, value: String) -> (nothing: ())
        ensures
            final(self).pairs@ == old(self).pairs@.insert(0, (name, value)),
            spec_lookup(final(self).pairs@, name@) == Some(value@),
    {
        let ghost gname = name@;
        let ghost gvalue = value@;
        self.pairs.insert(0, (name, value));
        proof {
            assert(self.pairs@[0].0@ == gname);
            assert(self.pairs@[0].1@ == gvalue);
        }
    }

    /// Removes every pair whose name is `name`; all other pairs survive,
    /// in their order.
    pub fn remove_variable(&mut self, name: &str) -> (nothing: ())
        ensures
            final(self).pairs@ == spec_without(old(self).pairs@, 0, name@),
            spec_lookup(final(self).pairs@, name@) is None,
    {
        let n = self.pairs.len();
        let mut kept: Vec<(String, String)> = Vec::new();
        let mut i: usize = 0;
        proof {
            assert(spec_lookup(kept@, name@) is None);
        }
        while i < n
            invariant
                n == self.pairs@.len(),
                i <= n,
                spec_lookup(kept@, name@) is None,
                spec_without(self.pairs@, 0, name@) == kept@ + spec_without(
                    self.pairs@,
                    i as int,
                    name@,
                ),
            decreases n - i,
        {
            let ghost gkept = kept@;
            if !str_eq(self.pairs[i].0.as_str(), name) {
                let pair_name = self.pairs[i].0.clone();
                let pair_value = self.pairs[i].1.clone();
                let ghost gp = (pair_name, pair_value);
                kept.push((pair_name, pair_value));
                proof {
                    lemma_lookup_push_other(gkept, gp, name@);
                    assert(gp == self.pairs@[i as int]);
                    assert(gkept + (seq![self.pairs@[i as int]] + spec_without(
                        self.pairs@,
                        i + 1,
                        name@,
                    )) =~= kept@ + spec_without(self.pairs@, i + 1, name@));
                }
            }
            i = i + 1;
        }
        proof {
            assert(spec_without(self.pairs@, i as int, name@) =~= Seq::<(String, String)>::empty());
            assert(kept@ + Seq::<(String, String)>::empty() =~= kept@);
        }
        self.pairs = kept;
    }
}

/// The pairs from position `i` on whose name is not `name`, in order.
pub open spec fn spec_without(
    pairs: Seq<(String, String)>,
    i: int,
    name: Seq<char>,
) -> Seq<(String, String)>
    decreases pairs.len() - i,
{
    if i < 0 || i >= pairs.len() {
        Seq::empty()
    } else if pairs[i].0@ == name {
        spec_without(pairs, i + 1, name)
    } else {
        seq![pairs[i]] + spec_without(pairs, i + 1, name)
    }
}

/// Appending a pair with a different name does not make a lookup succeed.
proof fn lemma_lookup_push_other(pairs: Seq<(String, String)>, p: (String, String), name: Seq<char>)
    requires
        spec_lookup(pairs, name) is None,
        p.0@ != name,
    ensures
        spec_lookup(pairs.push(p), name) is None,
    decreases pairs,
{
    reveal_with_fuel(spec_lookup, 3);
    if pairs.len() == 0 {
        assert(pairs.push(p)[0] == p);
        assert(pairs.push(p).drop_first() =~= Seq::<(String, String)>::empty());
    } else {
        assert(pairs.push(p)[0] == pairs[0]);
        assert(pairs.push(p).drop_first() =~= pairs.drop_first().push(p));
        lemma_lookup_push_other(pairs.drop_first(), p, name);
    }
}

// ---------------------------------------------------------------------------
// Subcommands of an item
// ---------------------------------------------------------------------------

/// How many subcommand leaves `item` holds.
pub open spec fn spec_sub_count(item: SpecItem) -> int
    decreases item, 1int,
{
    match item {
        SpecItem::Subcommand(_) => 1,
        SpecItem::Concatenation(items) => spec_sub_count_items(items, 0),
        _ => 0,
    }
}

pub open spec fn spec_sub_count_items(items: Seq<SpecItem>, j: int) -> int
    decreases items, 0int, items.len() - j,
{
    if j < 0 || j >= items.len() {
        0
    } else {
        spec_sub_count(items[j]) + spec_sub_count_items(items, j + 1)
    }
}

/// The rendered command line of each subcommand leaf, in order.
pub open spec fn spec_sub_texts(item: SpecItem) -> Seq<Seq<char>>
    decreases item, 1int,
{
    match item {
        SpecItem::Subcommand(t) => seq![spec_render_tree(t)],
        SpecItem::Concatenation(items) => spec_sub_texts_items(items, 0),
        _ => Seq::empty(),
    }
}

pub open spec fn spec_sub_texts_items(items: Seq<SpecItem>, j: int) -> Seq<Seq<char>>
    decreases items, 0int, items.len() - j,
{
    if j < 0 || j >= items.len() {
        Seq::empty()
    } else {
        spec_sub_texts(items[j]) + spec_sub_texts_items(items, j + 1)
    }
}

pub open spec fn strings_view(v: Seq<String>) -> Seq<Seq<char>> {
    Seq::new(v.len(), |i: int| v[i]@)
}

pub proof fn lemma_sub_texts_count(item: SpecItem)
    ensures
        spec_sub_texts(item).len() == spec_sub_count(item),
    decreases item, 1int,
{
    match item {
        SpecItem::Concatenation(items) => {
            lemma_sub_texts_count_items(items, 0);
        },
        _ => {},
    }
}

pub proof fn lemma_sub_texts_count_items(items: Seq<SpecItem>, j: int)
    ensures
        spec_sub_texts_items(items, j).len() == spec_sub_count_items(items, j),
        spec_sub_count_items(items, j) >= 0,
    decreases items, 0int, items.len() - j,
{
    if 0 <= j < items.len() {
        lemma_sub_texts_count(items[j]);
        lemma_sub_texts_count_items(items, j + 1);
    }
}

/// Collects the rendered text of every subcommand of `item`, in the order
/// in which evaluation will consume their outputs.
pub fn subcommand_lines(item: &CommandItem) -> (r: Vec<String>)
    ensures
        strings_view(r@) == spec_sub_texts(item_view(*item)),
    decreases *item, 1int,
{
    match item {
        CommandItem::Subcommand(t) => {
            let mut r: Vec<String> = Vec::new();
            r.push(t.render());
            proof {
                assert(strings_view(r@) =~= spec_sub_texts(item_view(*item)));
            }
            r
        },
        CommandItem::Concatenation(items) => {
            let r = subcommand_lines_items(items, 0);
            r
        },
        _ => {
            let r: Vec<String> = Vec::new();
            proof {
                assert(strings_view(r@) =~= spec_sub_texts(item_view(*item)));
            }
            r
        },
    }
}

fn subcommand_lines_items(items: &Vec<CommandItem>, j: usize) -> (r: Vec<String>)
    requires
        j <= items@.len(),
    ensures
        strings_view(r@) == spec_sub_texts_items(items_view(items@), j as int),
    decreases *items, 0int, items@.len() - j,
{
    proof {
        lemma_items_view_len(items@);
    }
    if j >= items.len() {
        let r: Vec<String> = Vec::new();
        proof {
            assert(strings_view(r@) =~= spec_sub_texts_items(items_view(items@), j as int));
        }
        r
    } else {
        proof {
            lemma_items_view_index(items@, j as int);
        }
        let mut first = subcommand_lines(&items[j]);
        let mut rest = subcommand_lines_items(items, j + 1);
        let ghost gfirst = first@;
        let ghost grest = rest@;
        first.append(&mut rest);
        proof {
            assert(strings_view(first@) =~= strings_view(gfirst) + strings_view(grest));
        }
        first
    }
}

// ---------------------------------------------------------------------------
// Evaluation
// ---------------------------------------------------------------------------

/// The output index after evaluating an item moves forward by exactly the
/// item's subcommand count.
pub proof fn lemma_eval_index(
    item: SpecItem,
    env: Seq<(String, String)>,
    outs: Seq<Seq<char>>,
    idx: int,
)
    ensures
        spec_eval(item, env, outs, idx).1 == idx + spec_sub_count(item),
    decreases item, 1int,
{
    match item {
        SpecItem::Concatenation(items) => {
            lemma_eval_items_index(items, 0, env, outs, idx);
        },
        _ => {},
    }
}

pub proof fn lemma_eval_items_index(
    items: Seq<SpecItem>,
    j: int,
    env: Seq<(String, String)>,
    outs: Seq<Seq<char>>,
    idx: int,
)
    ensures
        spec_eval_items(items, j, env, outs, idx).1 == idx + spec_sub_count_items(items, j),
    decreases items, 0int, items.len() - j,
{
    if 0 <= j < items.len() {
        lemma_eval_index(items[j], env, outs, idx);
        lemma_eval_items_index(items, j + 1, env, outs, spec_eval(items[j], env, outs, idx).1);
    }
}

/// The text of `item` once its parts are resolved: literals and raw
/// segments stand for themselves, a variable reference for its value in
/// the environment (empty when unset), a subcommand for its captured
/// output with trailing whitespace trimmed, and a concatenation for its
/// children's texts glued together.  The second component is the index of
/// the next unconsumed subcommand output.
pub open spec fn spec_eval(
    item: SpecItem,
    env: Seq<(String, String)>,
    outs: Seq<Seq<char>>,
    idx: int,
) -> (Seq<char>, int)
    decreases item, 1int,
{
    match item {
        SpecItem::Literal(s) => (s, idx),
        SpecItem::RawSegment(s) => (s, idx),
        SpecItem::VariableReference(name) => (
            match spec_lookup(env, name) {
                Some(v) => v,
                None => Seq::empty(),
            },
            idx,
        ),
        SpecItem::Subcommand(_) => (spec_trim_end(outs[idx]), idx + 1),
        SpecItem::Concatenation(items) => spec_eval_items(items, 0, env, outs, idx),
    }
}

pub open spec fn spec_eval_items(
    items: Seq<SpecItem>,
    j: int,
    env: Seq<(String, String)>,
    outs: Seq<Seq<char>>,
    idx: int,
) -> (Seq<char>, int)
    decreases items, 0int, items.len() - j,
{
    if j < 0 || j >= items.len() {
        (Seq::empty(), idx)
    } else {
        let first = spec_eval(items[j], env, outs, idx);
        let rest = spec_eval_items(items, j + 1, env, outs, first.1);
        (first.0 + rest.0, rest.1)
    }
}

/// Resolves one command item to its argument string.  `sub_outputs` must
/// hold one captured output per subcommand of the item, in order; use
/// `subcommand_lines` to learn what to run.
pub fn evaluate_command_item(item: &CommandItem, env: &VarEnv, sub_outputs: &Vec<String>) -> (r:
    String)
    requires
        spec_sub_count(item_view(*item)) <= sub_outputs@.len(),
    ensures
        r@ == spec_eval(item_view(*item), env.pairs@, strings_view(sub_outputs@), 0).0,
{
    proof {
        lemma_sub_texts_count(item_view(*item));
    }
    let (text, _) = evaluate_at(item, env, sub_outputs, 0);
    text
}

/// The recursive worker of `evaluate_command_item`: resolves `item` using
/// the subcommand outputs from position `idx` on.
fn evaluate_at(item: &CommandItem, env: &VarEnv, outs: &Vec<String>, idx: usize) -> (r: (
    String,
    usize,
))
    requires
        idx + spec_sub_count(item_view(*item)) <= outs@.len(),
    ensures
        (r.0@, r.1 as int) == spec_eval(
            item_view(*item),
            env.pairs@,
            strings_view(outs@),
            idx as int,
        ),
    decreases *item, 1int,
{
    match item {
        CommandItem::Literal(s) => (s.clone(), idx),
        CommandItem::RawSegment(s) => (s.clone(), idx),
        CommandItem::VariableReference(name) => {
            match env.read_variable(name.as_str()) {
                Some(v) => (v.clone(), idx),
                None => (String::new(), idx),
            }
        },
        CommandItem::Subcommand(_) => {
            let total = outs.len();
            proof {
                assert(spec_sub_count(item_view(*item)) == 1);
                assert(idx + 1 <= total);
            }
            let out_chars = to_char_vec(outs[idx].as_str());
            let trimmed = trim_end_chars(&out_chars);
            (string_from_chars(&trimmed), idx + 1)
        },
        CommandItem::Concatenation(items) => evaluate_items_at(items, 0, env, outs, idx),
    }
}

fn evaluate_items_at(
    items: &Vec<CommandItem>,
    j: usize,
    env: &VarEnv,
    outs: &Vec<String>,
    idx: usize,
) -> (r: (String, usize))
    requires
        j <= items@.len(),
        idx + spec_sub_count_items(items_view(items@), j as int) <= outs@.len(),
    ensures
        (r.0@, r.1 as int) == spec_eval_items(
            items_view(items@),
            j as int,
            env.pairs@,
            strings_view(outs@),
            idx as int,
        ),
    decreases *items, 0int, items@.len() - j,
{
    proof {
        lemma_items_view_len(items@);
        lemma_sub_texts_count_items(items_view(items@), j as int);
    }
    if j >= items.len() {
        (String::new(), idx)
    } else {
        proof {
            lemma_items_view_index(items@, j as int);
            lemma_sub_texts_count(item_view(items@[j as int]));
            lemma_sub_texts_count_items(items_view(items@), j + 1);
            lemma_eval_index(
                item_view(items@[j as int]),
                env.pairs@,
                strings_view(outs@),
                idx as int,
            );
        }
        let (first_text, idx2) = evaluate_at(&items[j], env, outs, idx);
        let (rest_text, idx3) = evaluate_items_at(items, j + 1, env, outs, idx2);
        let joined = first_text.concat(rest_text.as_str());
        (joined, idx3)
    }
}

} // verus!
