//! The human-readable dump of a parsed syntax tree: an indented listing
//! of every node, written to the diagnostic stream before execution when
//! the tree echo is switched on.  This is a debugging aid; the caller
//! prints the returned text.

use vstd::prelude::*;

use crate::syntax::{
    CommandItem, CommandSyntax, OutputRedirectionKind, SpecCommand, SpecItem, SpecTree,
    SyntaxTree, command_view, dec_u64_chars, item_view, items_view, lemma_items_view_index,
    lemma_items_view_len, lemma_stages_view_index, lemma_stages_view_len, spec_dec_i32,
    spec_dec_nat, stages_view, tree_view,
};
use crate::text::{string_from_chars, subvec, to_char_vec};

verus! {

/// The field line for an optional file descriptor.
pub open spec fn spec_debug_fd(fd: Option<i32>) -> Seq<char> {
    match fd {
        Some(v) => spec_dec_i32(v as int),
        None => "Default"@,
    }
}

/// The dump of one command item at the given indentation prefix.
pub open spec fn spec_debug_item(item: SpecItem, prefix: Seq<char>) -> Seq<char>
    decreases item, 1int, 0int,
{
    match item {
        SpecItem::Literal(s) => prefix + "String: "@ + s + seq!['\n'],
        SpecItem::RawSegment(s) => prefix + "Raw String: "@ + s + seq!['\n'],
        SpecItem::VariableReference(s) => prefix + "Shell Variable: "@ + s + seq!['\n'],
        SpecItem::Subcommand(t) => prefix + "Subcommand"@ + seq!['\n'] + spec_debug_tree(
            t,
            prefix + "    "@,
        ),
        SpecItem::Concatenation(items) => spec_debug_combination(items, 0, prefix),
    }
}

/// The dump of the children of a concatenation, numbered from one.
pub open spec fn spec_debug_combination(items: Seq<SpecItem>, k: int, prefix: Seq<char>) -> Seq<
    char,
>
    decreases items, 0int, items.len() - k,
{
    if k < 0 || k >= items.len() {
        Seq::empty()
    } else {
        prefix + "Combination item "@ + spec_dec_nat((k + 1) as nat) + seq!['\n']
            + spec_debug_item(items[k], prefix + "    "@) + spec_debug_combination(
            items,
            k + 1,
            prefix,
        )
    }
}

/// The dump of one pipeline stage.
pub open spec fn spec_debug_command(c: SpecCommand, prefix: Seq<char>) -> Seq<char>
    decreases c, 1int, 0int,
{
    match c {
        SpecCommand::InputRedirection { inner, file_descriptor, source } => {
            prefix + "Input redirection"@ + seq!['\n'] + prefix + "    "@
                + "File descriptor: "@ + spec_debug_fd(file_descriptor) + seq!['\n'] + prefix
                + "    "@ + "Redirect from: "@ + source + seq!['\n'] + spec_debug_command(
                *inner,
                prefix + "    "@,
            )
        },
        SpecCommand::OutputRedirection { inner, file_descriptor, destination, kind } => {
            prefix + "Output redirection"@ + seq!['\n'] + prefix + "    "@
                + "File descriptor: "@ + spec_debug_fd(file_descriptor) + seq!['\n'] + prefix
                + "    "@ + "Redirect into: "@ + destination + seq!['\n'] + prefix + "    "@
                + "Redirect kind: "@ + (match kind {
                OutputRedirectionKind::Create => "Create"@,
                OutputRedirectionKind::Append => "Append"@,
                OutputRedirectionKind::Overwrite => "Overwrite"@,
            }) + seq!['\n'] + spec_debug_command(*inner, prefix + "    "@)
        },
        SpecCommand::Command(items) => spec_debug_argv(items, 0, prefix),
    }
}

/// The dump of the argument items of a command, numbered from one.
pub open spec fn spec_debug_argv(items: Seq<SpecItem>, k: int, prefix: Seq<char>) -> Seq<char>
    decreases items, 0int, items.len() - k,
{
    if k < 0 || k >= items.len() {
        Seq::empty()
    } else {
        prefix + "Command item "@ + spec_dec_nat((k + 1) as nat) + seq!['\n'] + spec_debug_item(
            items[k],
            prefix + "    "@,
        ) + spec_debug_argv(items, k + 1, prefix)
    }
}

/// The dump of a whole tree.
pub open spec fn spec_debug_tree(t: SpecTree, prefix: Seq<char>) -> Seq<char>
    decreases t, 1int, 0int,
{
    match t {
        SpecTree::Command(c) => prefix + "Command"@ + seq!['\n'] + spec_debug_command(
            c,
            prefix + "    "@,
        ),
        SpecTree::PipeChain(chain) => spec_debug_chain(chain, 0, prefix),
    }
}

/// The dump of the stages of a pipe chain, numbered from one.
pub open spec fn spec_debug_chain(chain: Seq<SpecCommand>, k: int, prefix: Seq<char>) -> Seq<char>
    decreases chain, 0int, chain.len() - k,
{
    if k < 0 || k >= chain.len() {
        Seq::empty()
    } else {
        prefix + "Pipe chain - Command "@ + spec_dec_nat((k + 1) as nat) + seq!['\n']
            + spec_debug_command(chain[k], prefix + "    "@) + spec_debug_chain(
            chain,
            k + 1,
            prefix,
        )
    }
}

/// Appends the characters of a literal piece of the dump.
fn push_text(out: &mut Vec<char>, text: &str)
    ensures
        final(out)@ == old(out)@ + text@,
{
    let mut chars = to_char_vec(text);
    out.append(&mut chars);
}

/// The indentation one level deeper.
fn deeper(prefix: &Vec<char>) -> (r: Vec<char>)
    ensures
        r@ == prefix@ + "    "@,
{
    let mut r = subvec(prefix, 0, prefix.len());
    proof {
        assert(r@ =~= prefix@);
    }
    push_text(&mut r, "    ");
    r
}

impl SyntaxTree {
    /// The indented diagnostic dump of this tree.
    pub fn debug_render(&self) -> (r: String)
        ensures
            r@ == spec_debug_tree(tree_view(*self), Seq::empty()),
    {
        let prefix: Vec<char> = Vec::new();
        let chars = debug_tree_chars(self, &prefix);
        proof {
            assert(prefix@ =~= Seq::<char>::empty());
        }
        string_from_chars(&chars)
    }
}

fn debug_tree_chars(t: &SyntaxTree, prefix: &Vec<char>) -> (r: Vec<char>)
    ensures
        r@ == spec_debug_tree(tree_view(*t), prefix@),
    decreases *t, 1int, 0int,
{
    match t {
        SyntaxTree::Command(c) => {
            let mut out = subvec(prefix, 0, prefix.len());
            proof {
                assert(out@ =~= prefix@);
            }
            push_text(&mut out, "Command");
            out.push('\n');
            let inner_prefix = deeper(prefix);
            let mut body = debug_command_chars(c, &inner_prefix);
            let ghost g0 = out@;
            let ghost g1 = body@;
            out.append(&mut body);
            proof {
                assert(out@ =~= prefix@ + "Command"@ + seq!['\n'] + g1);
            }
            out
        },
        SyntaxTree::PipeChain(chain) => debug_chain_chars(chain, 0, prefix),
    }
}

fn debug_chain_chars(chain: &Vec<CommandSyntax>, k: usize, prefix: &Vec<char>) -> (r: Vec<char>)
    requires
        k <= chain@.len(),
    ensures
        r@ == spec_debug_chain(stages_view(chain@), k as int, prefix@),
    decreases *chain, 0int, chain@.len() - k,
{
    proof {
        lemma_stages_view_len(chain@);
    }
    if k >= chain.len() {
        Vec::new()
    } else {
        proof {
            lemma_stages_view_index(chain@, k as int);
        }
        let mut out = subvec(prefix, 0, prefix.len());
        proof {
            assert(out@ =~= prefix@);
        }
        push_text(&mut out, "Pipe chain - Command ");
        let mut num = dec_u64_chars((k as u64) + 1);
        let ghost gnum = num@;
        out.append(&mut num);
        out.push('\n');
        let inner_prefix = deeper(prefix);
        let mut body = debug_command_chars(&chain[k], &inner_prefix);
        let ghost gbody = body@;
        out.append(&mut body);
        let mut rest = debug_chain_chars(chain, k + 1, prefix);
        let ghost grest = rest@;
        out.append(&mut rest);
        proof {
            assert(out@ =~= prefix@ + "Pipe chain - Command "@ + gnum + seq!['\n'] + gbody
                + grest);
        }
        out
    }
}

fn debug_fd_chars(fd: &Option<i32>) -> (r: Vec<char>)
    ensures
        r@ == spec_debug_fd(*fd),
{
    match fd {
        Some(v) => crate::syntax::dec_i32_chars(*v),
        None => to_char_vec("Default"),
    }
}

#[verifier::rlimit(100)]
fn debug_command_chars(c: &CommandSyntax, prefix: &Vec<char>) -> (r: Vec<char>)
    ensures
        r@ == spec_debug_command(command_view(*c), prefix@),
    decreases *c, 1int, 0int,
{
    match c {
        CommandSyntax::InputRedirection { inner, file_descriptor, source } => {
            let mut out = subvec(prefix, 0, prefix.len());
            proof {
                assert(out@ =~= prefix@);
            }
            push_text(&mut out, "Input redirection");
            out.push('\n');
            let inner_prefix = deeper(prefix);
            let mut p2 = subvec(&inner_prefix, 0, inner_prefix.len());
            proof {
                assert(p2@ =~= inner_prefix@);
            }
            out.append(&mut p2);
            push_text(&mut out, "File descriptor: ");
            let mut fd_text = debug_fd_chars(file_descriptor);
            let ghost gfd = fd_text@;
            out.append(&mut fd_text);
            out.push('\n');
            let mut p3 = subvec(&inner_prefix, 0, inner_prefix.len());
            proof {
                assert(p3@ =~= inner_prefix@);
            }
            out.append(&mut p3);
            push_text(&mut out, "Redirect from: ");
            let mut src = to_char_vec(source.as_str());
            let ghost gsrc = src@;
            out.append(&mut src);
            out.push('\n');
            let mut body = debug_command_chars(inner, &inner_prefix);
            let ghost gbody = body@;
            out.append(&mut body);
            proof {
                assert(out@ =~= prefix@ + "Input redirection"@ + seq!['\n'] + (prefix@
                    + "    "@) + "File descriptor: "@ + gfd + seq!['\n'] + (prefix@ + "    "@)
                    + "Redirect from: "@ + gsrc + seq!['\n'] + gbody);
            }
            out
        },
        CommandSyntax::OutputRedirection { inner, file_descriptor, destination, kind } => {
            let mut out = subvec(prefix, 0, prefix.len());
            proof {
                assert(out@ =~= prefix@);
            }
            push_text(&mut out, "Output redirection");
            out.push('\n');
            let inner_prefix = deeper(prefix);
            let mut p2 = subvec(&inner_prefix, 0, inner_prefix.len());
            proof {
                assert(p2@ =~= inner_prefix@);
            }
            out.append(&mut p2);
            push_text(&mut out, "File descriptor: ");
            let mut fd_text = debug_fd_chars(file_descriptor);
            let ghost gfd = fd_text@;
            out.append(&mut fd_text);
            out.push('\n');
            let mut p3 = subvec(&inner_prefix, 0, inner_prefix.len());
            proof {
                assert(p3@ =~= inner_prefix@);
            }
            out.append(&mut p3);
            push_text(&mut out, "Redirect into: ");
            let mut dst = to_char_vec(destination.as_str());
            let ghost gdst = dst@;
            out.append(&mut dst);
            out.push('\n');
            let mut p4 = subvec(&inner_prefix, 0, inner_prefix.len());
            proof {
                assert(p4@ =~= inner_prefix@);
            }
            out.append(&mut p4);
            push_text(&mut out, "Redirect kind: ");
            match kind {
                OutputRedirectionKind::Create => push_text(&mut out, "Create"),
                OutputRedirectionKind::Append => push_text(&mut out, "Append"),
                OutputRedirectionKind::Overwrite => push_text(&mut out, "Overwrite"),
            }
            out.push('\n');
            let mut body = debug_command_chars(inner, &inner_prefix);
            let ghost gbody = body@;
            out.append(&mut body);
            proof {
                assert(out@ =~= prefix@ + "Output redirection"@ + seq!['\n'] + (prefix@
                    + "    "@) + "File descriptor: "@ + gfd + seq!['\n'] + (prefix@ + "    "@)
                    + "Redirect into: "@ + gdst + seq!['\n'] + (prefix@ + "    "@)
                    + "Redirect kind: "@ + (match *kind {
                    OutputRedirectionKind::Create => "Create"@,
                    OutputRedirectionKind::Append => "Append"@,
                    OutputRedirectionKind::Overwrite => "Overwrite"@,
                }) + seq!['\n'] + gbody);
            }
            out
        },
        CommandSyntax::Command(items) => debug_argv_chars(items, 0, prefix),
    }
}

fn debug_argv_chars(items: &Vec<CommandItem>, k: usize, prefix: &Vec<char>) -> (r: Vec<char>)
    requires
        k <= items@.len(),
    ensures
        r@ == spec_debug_argv(items_view(items@), k as int, prefix@),
    decreases *items, 0int, items@.len() - k,
{
    proof {
        lemma_items_view_len(items@);
    }
    if k >= items.len() {
        Vec::new()
    } else {
        proof {
            lemma_items_view_index(items@, k as int);
        }
        let mut out = subvec(prefix, 0, prefix.len());
        proof {
            assert(out@ =~= prefix@);
        }
        push_text(&mut out, "Command item ");
        let mut num = dec_u64_chars((k as u64) + 1);
        let ghost gnum = num@;
        out.append(&mut num);
        out.push('\n');
        let inner_prefix = deeper(prefix);
        let mut body = debug_item_chars(&items[k], &inner_prefix);
        let ghost gbody = body@;
        out.append(&mut body);
        let mut rest = debug_argv_chars(items, k + 1, prefix);
        let ghost grest = rest@;
        out.append(&mut rest);
        proof {
            assert(out@ =~= prefix@ + "Command item "@ + gnum + seq!['\n'] + gbody + grest);
        }
        out
    }
}

fn debug_item_chars(item: &CommandItem, prefix: &Vec<char>) -> (r: Vec<char>)
    ensures
        r@ == spec_debug_item(item_view(*item), prefix@),
    decreases *item, 1int, 0int,
{
    match item {
        CommandItem::Literal(s) => {
            let mut out = subvec(prefix, 0, prefix.len());
            proof {
                assert(out@ =~= prefix@);
            }
            push_text(&mut out, "String: ");
            let mut text = to_char_vec(s.as_str());
            let ghost gtext = text@;
            out.append(&mut text);
            out.push('\n');
            proof {
                assert(out@ =~= prefix@ + "String: "@ + gtext + seq!['\n']);
            }
            out
        },
        CommandItem::RawSegment(s) => {
            let mut out = subvec(prefix, 0, prefix.len());
            proof {
                assert(out@ =~= prefix@);
            }
            push_text(&mut out, "Raw String: ");
            let mut text = to_char_vec(s.as_str());
            let ghost gtext = text@;
            out.append(&mut text);
            out.push('\n');
            proof {
                assert(out@ =~= prefix@ + "Raw String: "@ + gtext + seq!['\n']);
            }
            out
        },
        CommandItem::VariableReference(s) => {
            let mut out = subvec(prefix, 0, prefix.len());
            proof {
                assert(out@ =~= prefix@);
            }
            push_text(&mut out, "Shell Variable: ");
            let mut text = to_char_vec(s.as_str());
            let ghost gtext = text@;
            out.append(&mut text);
            out.push('\n');
            proof {
                assert(out@ =~= prefix@ + "Shell Variable: "@ + gtext + seq!['\n']);
            }
            out
        },
        CommandItem::Subcommand(t) => {
            let mut out = subvec(prefix, 0, prefix.len());
            proof {
                assert(out@ =~= prefix@);
            }
            push_text(&mut out, "Subcommand");
            out.push('\n');
            let inner_prefix = deeper(prefix);
            let mut body = debug_tree_chars(t, &inner_prefix);
            let ghost gbody = body@;
            out.append(&mut body);
            proof {
                assert(out@ =~= prefix@ + "Subcommand"@ + seq!['\n'] + gbody);
            }
            out
        },
        CommandItem::Concatenation(items) => debug_combination_chars(items, 0, prefix),
    }
}

fn debug_combination_chars(items: &Vec<CommandItem>, k: usize, prefix: &Vec<char>) -> (r: Vec<
    char,
>)
    requires
        k <= items@.len(),
    ensures
        r@ == spec_debug_combination(items_view(items@), k as int, prefix@),
    decreases *items, 0int, items@.len() - k,
{
    proof {
        lemma_items_view_len(items@);
    }
    if k >= items.len() {
        Vec::new()
    } else {
        proof {
            lemma_items_view_index(items@, k as int);
        }
        let mut out = subvec(prefix, 0, prefix.len());
        proof {
            assert(out@ =~= prefix@);
        }
        push_text(&mut out, "Combination item ");
        let mut num = dec_u64_chars((k as u64) + 1);
        let ghost gnum = num@;
        out.append(&mut num);
        out.push('\n');
        let inner_prefix = deeper(prefix);
        let mut body = debug_item_chars(&items[k], &inner_prefix);
        let ghost gbody = body@;
        out.append(&mut body);
        let mut rest = debug_combination_chars(items, k + 1, prefix);
        let ghost grest = rest@;
        out.append(&mut rest);
        proof {
            assert(out@ =~= prefix@ + "Combination item "@ + gnum + seq!['\n'] + gbody + grest);
        }
        out
    }
}

} // verus!
