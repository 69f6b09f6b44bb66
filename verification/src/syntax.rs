//! The syntax tree of one command line, together with its mathematical
//! model: every executable node has a spec-level twin over `Seq<char>`,
//! reached through `@`, and the contracts of the parser and of the tree
//! operations speak about those twins.

use vstd::prelude::*;

verus! {

broadcast use vstd::seq::group_seq_axioms;

// ---------------------------------------------------------------------------
// Executable data
// ---------------------------------------------------------------------------

/// A parse failure: a half-open span of offsets into the original line,
/// and a human-readable reason. `end_index >= start_index` always holds
/// for errors the parser produces.  The offsets count characters, which
/// coincides with byte offsets on ASCII input; the caret underline under
/// the offending span is drawn by counting characters the same way.
#[derive(Clone, Debug, PartialEq, Eq)]
pub struct ParseError {
    pub start_index: usize,
    pub end_index: usize,
    pub reason: String,
}

/// How a destination file of an output redirection is opened.
#[derive(Copy, Clone, Debug, PartialEq, Eq, Structural)]
pub enum OutputRedirectionKind {
    /// `>`: create the file; an existing file is an error.
    Create,
    /// `>>`: append, creating the file when absent.
    Append,
    /// `>|`: truncate unconditionally.
    Overwrite,
}

impl Default for OutputRedirectionKind {
    /// A bare `>` creates.
    fn default() -> (r: OutputRedirectionKind)
        ensures
            r == OutputRedirectionKind::Create,
    {
        OutputRedirectionKind::Create
    }
}

/// One token fragment of an argument, before evaluation.
#[derive(Debug, PartialEq, Eq)]
pub enum CommandItem {
    /// Text from a quoted string; inert under variable substitution.
    Literal(String),
    /// Unquoted text; also inert in this grammar.
    RawSegment(String),
    /// `$name`, resolved against the environment at evaluation time.
    VariableReference(String),
    /// A nested command line whose captured standard output becomes the
    /// token text.
    Subcommand(Box<SyntaxTree>),
    /// Adjacent fragments glued into one token, e.g. `foo"bar"$x`.
    Concatenation(Vec<CommandItem>),
}

/// A single pipeline stage: a command wrapped by redirection decorators.
#[derive(Debug, PartialEq, Eq)]
pub enum CommandSyntax {
    InputRedirection {
        inner: Box<CommandSyntax>,
        file_descriptor: Option<i32>,
        source: String,
    },
    OutputRedirection {
        inner: Box<CommandSyntax>,
        file_descriptor: Option<i32>,
        destination: String,
        kind: OutputRedirectionKind,
    },
    Command(Vec<CommandItem>),
}

/// The root of a parsed line.
#[derive(Debug, PartialEq, Eq)]
pub enum SyntaxTree {
    Command(CommandSyntax),
    PipeChain(Vec<CommandSyntax>),
}

// ---------------------------------------------------------------------------
// Spec-level model
// ---------------------------------------------------------------------------

pub struct SpecParseError {
    pub start_index: int,
    pub end_index: int,
    pub reason: Seq<char>,
}

pub enum SpecItem {
    Literal(Seq<char>),
    RawSegment(Seq<char>),
    VariableReference(Seq<char>),
    Subcommand(SpecTree),
    Concatenation(Seq<SpecItem>),
}

pub enum SpecCommand {
    InputRedirection { inner: Box<SpecCommand>, file_descriptor: Option<i32>, source: Seq<char> },
    OutputRedirection {
        inner: Box<SpecCommand>,
        file_descriptor: Option<i32>,
        destination: Seq<char>,
        kind: OutputRedirectionKind,
    },
    Command(Seq<SpecItem>),
}

pub enum SpecTree {
    Command(SpecCommand),
    PipeChain(Seq<SpecCommand>),
}

// ---------------------------------------------------------------------------
// Views
// ---------------------------------------------------------------------------

pub open spec fn items_view(items: Seq<CommandItem>) -> Seq<SpecItem>
    decreases items,
{
    if items.len() == 0 {
        Seq::empty()
    } else {
        seq![item_view(items[0])] + items_view(items.drop_first())
    }
}

pub open spec fn item_view(item: CommandItem) -> SpecItem
    decreases item,
{
    match item {
        CommandItem::Literal(s) => SpecItem::Literal(s@),
        CommandItem::RawSegment(s) => SpecItem::RawSegment(s@),
        CommandItem::VariableReference(s) => SpecItem::VariableReference(s@),
        CommandItem::Subcommand(t) => SpecItem::Subcommand(tree_view(*t)),
        CommandItem::Concatenation(items) => SpecItem::Concatenation(items_view(items@)),
    }
}

pub open spec fn command_view(c: CommandSyntax) -> SpecCommand
    decreases c,
{
    match c {
        CommandSyntax::InputRedirection { inner, file_descriptor, source } => {
            SpecCommand::InputRedirection {
                inner: Box::new(command_view(*inner)),
                file_descriptor,
                source: source@,
            }
        },
        CommandSyntax::OutputRedirection { inner, file_descriptor, destination, kind } => {
            SpecCommand::OutputRedirection {
                inner: Box::new(command_view(*inner)),
                file_descriptor,
                destination: destination@,
                kind,
            }
        },
        CommandSyntax::Command(items) => SpecCommand::Command(items_view(items@)),
    }
}

pub open spec fn stages_view(chain: Seq<CommandSyntax>) -> Seq<SpecCommand>
    decreases chain,
{
    if chain.len() == 0 {
        Seq::empty()
    } else {
        seq![command_view(chain[0])] + stages_view(chain.drop_first())
    }
}

pub open spec fn tree_view(t: SyntaxTree) -> SpecTree
    decreases t,
{
    match t {
        SyntaxTree::Command(c) => SpecTree::Command(command_view(c)),
        SyntaxTree::PipeChain(chain) => SpecTree::PipeChain(stages_view(chain@)),
    }
}

impl View for CommandItem {
    type V = SpecItem;

    open spec fn view(&self) -> SpecItem {
        item_view(*self)
    }
}

impl View for CommandSyntax {
    type V = SpecCommand;

    open spec fn view(&self) -> SpecCommand {
        command_view(*self)
    }
}

impl View for SyntaxTree {
    type V = SpecTree;

    open spec fn view(&self) -> SpecTree {
        tree_view(*self)
    }
}

impl View for ParseError {
    type V = SpecParseError;

    open spec fn view(&self) -> SpecParseError {
        SpecParseError {
            start_index: self.start_index as int,
            end_index: self.end_index as int,
            reason: self.reason@,
        }
    }
}

impl DeepView for ParseError {
    type V = SpecParseError;

    open spec fn deep_view(&self) -> SpecParseError {
        self.view()
    }
}


// ---------------------------------------------------------------------------
// Lemmas about the sequence views
// ---------------------------------------------------------------------------

pub proof fn lemma_items_view_len(items: Seq<CommandItem>)
    ensures
        items_view(items).len() == items.len(),
    decreases items,
{
    if items.len() > 0 {
        lemma_items_view_len(items.drop_first());
    }
}

pub proof fn lemma_items_view_index(items: Seq<CommandItem>, i: int)
    requires
        0 <= i < items.len(),
    ensures
        items_view(items).len() == items.len(),
        items_view(items)[i] == item_view(items[i]),
    decreases items,
{
    lemma_items_view_len(items);
    if i > 0 {
        lemma_items_view_index(items.drop_first(), i - 1);
    }
}

pub proof fn lemma_items_view_push(items: Seq<CommandItem>, x: CommandItem)
    ensures
        items_view(items.push(x)) == items_view(items).push(item_view(x)),
    decreases items,
{
    reveal_with_fuel(items_view, 3);
    if items.len() == 0 {
        assert(items.push(x).drop_first() =~= Seq::<CommandItem>::empty());
        assert(items_view(items.push(x)) =~= items_view(items).push(item_view(x)));
    } else {
        lemma_items_view_push(items.drop_first(), x);
        assert(items.push(x).drop_first() =~= items.drop_first().push(x));
        assert(items.push(x)[0] == items[0]);
        assert(items_view(items.push(x)) == seq![item_view(items[0])] + items_view(
            items.drop_first().push(x),
        ));
        assert(items_view(items.push(x)) =~= items_view(items).push(item_view(x)));
    }
}

pub proof fn lemma_items_view_add(a: Seq<CommandItem>, b: Seq<CommandItem>)
    ensures
        items_view(a + b) == items_view(a) + items_view(b),
    decreases a,
{
    if a.len() == 0 {
        assert(a + b =~= b);
        assert(items_view(a) + items_view(b) =~= items_view(b));
    } else {
        lemma_items_view_add(a.drop_first(), b);
        assert((a + b).drop_first() =~= a.drop_first() + b);
        assert((a + b).len() > 0);
        assert((a + b)[0] == a[0]);
        assert(items_view(a + b) =~= items_view(a) + items_view(b));
    }
}

pub proof fn lemma_stages_view_len(chain: Seq<CommandSyntax>)
    ensures
        stages_view(chain).len() == chain.len(),
    decreases chain,
{
    if chain.len() > 0 {
        lemma_stages_view_len(chain.drop_first());
    }
}

pub proof fn lemma_stages_view_index(chain: Seq<CommandSyntax>, i: int)
    requires
        0 <= i < chain.len(),
    ensures
        stages_view(chain).len() == chain.len(),
        stages_view(chain)[i] == command_view(chain[i]),
    decreases chain,
{
    lemma_stages_view_len(chain);
    if i > 0 {
        lemma_stages_view_index(chain.drop_first(), i - 1);
    }
}

pub proof fn lemma_stages_view_push(chain: Seq<CommandSyntax>, x: CommandSyntax)
    ensures
        stages_view(chain.push(x)) == stages_view(chain).push(command_view(x)),
    decreases chain,
{
    reveal_with_fuel(stages_view, 3);
    if chain.len() == 0 {
        assert(chain.push(x).drop_first() =~= Seq::<CommandSyntax>::empty());
        assert(stages_view(chain.push(x)) =~= stages_view(chain).push(command_view(x)));
    } else {
        lemma_stages_view_push(chain.drop_first(), x);
        assert(chain.push(x).drop_first() =~= chain.drop_first().push(x));
        assert(chain.push(x)[0] == chain[0]);
        assert(stages_view(chain.push(x)) == seq![command_view(chain[0])] + stages_view(
            chain.drop_first().push(x),
        ));
        assert(stages_view(chain.push(x)) =~= stages_view(chain).push(command_view(x)));
    }
}

// ---------------------------------------------------------------------------
// Normalization
// ---------------------------------------------------------------------------

/// What one normalized fragment contributes to the surrounding
/// concatenation: a nested concatenation is spliced in, an empty raw
/// segment disappears, anything else stands for itself.
pub open spec fn spec_contribution(item: SpecItem) -> Seq<SpecItem> {
    match item {
        SpecItem::Concatenation(xs) => xs,
        SpecItem::RawSegment(s) => if s.len() == 0 {
            Seq::empty()
        } else {
            seq![SpecItem::RawSegment(s)]
        },
        other => seq![other],
    }
}

pub open spec fn spec_norm_items(items: Seq<SpecItem>) -> Seq<SpecItem>
    decreases items,
{
    if items.len() == 0 {
        Seq::empty()
    } else {
        spec_contribution(spec_flatten_item(items[0])) + spec_norm_items(items.drop_first())
    }
}

/// Normalizes a fragment: a concatenation is flattened, loses its empty raw
/// segments, and collapses to its sole child when one child is left.
pub open spec fn spec_flatten_item(item: SpecItem) -> SpecItem
    decreases item,
{
    match item {
        SpecItem::Concatenation(items) => {
            let n = spec_norm_items(items);
            if n.len() == 1 {
                n[0]
            } else {
                SpecItem::Concatenation(n)
            }
        },
        other => other,
    }
}

pub open spec fn spec_normalize_item(item: SpecItem) -> SpecItem {
    match spec_flatten_item(item) {
        SpecItem::Concatenation(c) => if c.len() == 1 {
            c[0]
        } else {
            SpecItem::Concatenation(c)
        },
        other => other,
    }
}

impl CommandItem {
    /// Flattens a concatenation: nested concatenations are spliced into the
    /// surrounding one, empty raw segments are dropped, and a concatenation
    /// with exactly one remaining child collapses to that child.
    pub fn flatten(self) -> (r: CommandItem)
        ensures
            item_view(r) == spec_flatten_item(item_view(self)),
        decreases self,
    {
        match self {
            CommandItem::Concatenation(items) => {
                let n = flatten_list(items);
                proof {
                    lemma_items_view_len(n@);
                }
                if n.len() == 1 {
                    let ghost nentry = n@;
                    let mut n = n;
                    let first = n.remove(0);
                    proof {
                        assert(first == nentry[0]);
                        lemma_items_view_index(nentry, 0);
                    }
                    first
                } else {
                    CommandItem::Concatenation(n)
                }
            },
            other => other,
        }
    }

    /// Normalization as the parser applies it: flattening, followed by the
    /// collapse of a one-element concatenation.
    pub fn normalize(self) -> (r: CommandItem)
        ensures
            item_view(r) == spec_normalize_item(item_view(self)),
    {
        let f = self.flatten();
        match f {
            CommandItem::Concatenation(c) => {
                if c.len() == 1 {
                    let ghost centry = c@;
                    let mut c = c;
                    let first = c.remove(0);
                    proof {
                        assert(first == centry[0]);
                        lemma_items_view_index(centry, 0);
                    }
                    first
                } else {
                    proof {
                        lemma_items_view_len(c@);
                    }
                    CommandItem::Concatenation(c)
                }
            },
            other => other,
        }
    }
}

/// Normalizes every element of a fragment list and splices the results
/// together, as `spec_norm_items` describes.
fn flatten_list(items: Vec<CommandItem>) -> (r: Vec<CommandItem>)
    ensures
        items_view(r@) == spec_norm_items(items_view(items@)),
    decreases items@,
{
    if items.len() == 0 {
        proof {
            assert(items_view(items@) =~= Seq::<SpecItem>::empty());
        }
        Vec::new()
    } else {
        let ghost entry = items@;
        let ghost iv = items_view(entry);
        let mut items = items;
        let first = items.remove(0);
        proof {
            assert(entry[0] == first);
            assert(items@ =~= entry.drop_first());
            lemma_items_view_index(entry, 0);
            assert(items_view(entry).drop_first() =~= items_view(entry.drop_first()));
        }
        let f = first.flatten();
        let mut rest = flatten_list(items);
        let ghost restv = rest@;
        proof {
            assert(iv.len() > 0);
            assert(spec_norm_items(iv) == spec_contribution(spec_flatten_item(iv[0]))
                + spec_norm_items(iv.drop_first()));
            assert(item_view(f) == spec_flatten_item(iv[0]));
            assert(items_view(restv) == spec_norm_items(iv.drop_first()));
        }
        let mut out: Vec<CommandItem>;
        match f {
            CommandItem::Concatenation(xs) => {
                proof {
                    lemma_items_view_add(xs@, restv);
                }
                out = xs;
                out.append(&mut rest);
            },
            CommandItem::RawSegment(s) => {
                if s.as_str().is_empty() {
                    out = rest;
                } else {
                    proof {
                        reveal_with_fuel(items_view, 3);
                        lemma_items_view_add(seq![CommandItem::RawSegment(s)], restv);
                        assert(seq![CommandItem::RawSegment(s)].drop_first()
                            =~= Seq::<CommandItem>::empty());
                        assert(items_view(seq![CommandItem::RawSegment(s)])
                            =~= seq![item_view(CommandItem::RawSegment(s))]);
                    }
                    out = Vec::new();
                    out.push(CommandItem::RawSegment(s));
                    out.append(&mut rest);
                    proof {
                        assert(out@ =~= seq![CommandItem::RawSegment(s)] + restv);
                    }
                }
            },
            other => {
                proof {
                    reveal_with_fuel(items_view, 3);
                    lemma_items_view_add(seq![other], restv);
                    assert(seq![other].drop_first() =~= Seq::<CommandItem>::empty());
                    assert(items_view(seq![other]) =~= seq![item_view(other)]);
                }
                out = Vec::new();
                out.push(other);
                out.append(&mut rest);
                proof {
                    assert(out@ =~= seq![other] + restv);
                }
            },
        }
        proof {
            assert(items_view(out@) =~= spec_norm_items(iv));
        }
        out
    }
}

// ---------------------------------------------------------------------------
// Replacing the innermost command
// ---------------------------------------------------------------------------

/// Replaces the argument list of the single `Command` leaf at the bottom of
/// a redirection chain.
pub open spec fn spec_inject(c: SpecCommand, new_items: Seq<SpecItem>) -> SpecCommand
    decreases c,
{
    match c {
        SpecCommand::InputRedirection { inner, file_descriptor, source } => {
            SpecCommand::InputRedirection {
                inner: Box::new(spec_inject(*inner, new_items)),
                file_descriptor,
                source,
            }
        },
        SpecCommand::OutputRedirection { inner, file_descriptor, destination, kind } => {
            SpecCommand::OutputRedirection {
                inner: Box::new(spec_inject(*inner, new_items)),
                file_descriptor,
                destination,
                kind,
            }
        },
        SpecCommand::Command(_) => SpecCommand::Command(new_items),
    }
}

impl CommandSyntax {
    /// Walks the redirection chain and replaces the innermost `Command`
    /// leaf's argument list with `new_command`.
    pub fn inject_and_replace(self, new_command: Vec<CommandItem>) -> (r: CommandSyntax)
        ensures
            command_view(r) == spec_inject(command_view(self), items_view(new_command@)),
        decreases self,
    {
        match self {
            CommandSyntax::InputRedirection { inner, file_descriptor, source } => {
                CommandSyntax::InputRedirection {
                    inner: Box::new(inner.inject_and_replace(new_command)),
                    file_descriptor,
                    source,
                }
            },
            CommandSyntax::OutputRedirection { inner, file_descriptor, destination, kind } => {
                CommandSyntax::OutputRedirection {
                    inner: Box::new(inner.inject_and_replace(new_command)),
                    file_descriptor,
                    destination,
                    kind,
                }
            },
            CommandSyntax::Command(_) => CommandSyntax::Command(new_command),
        }
    }
}


// ---------------------------------------------------------------------------
// Rendering a tree back to text
// ---------------------------------------------------------------------------

/// The decimal digits of a nonnegative number, most significant first.
pub open spec fn spec_dec_nat(n: nat) -> Seq<char>
    decreases n,
{
    if n < 10 {
        seq![spec_digit_char(n)]
    } else {
        spec_dec_nat(n / 10).push(spec_digit_char(n % 10))
    }
}

pub open spec fn spec_digit_char(d: nat) -> char {
    if d == 0 {
        '0'
    } else if d == 1 {
        '1'
    } else if d == 2 {
        '2'
    } else if d == 3 {
        '3'
    } else if d == 4 {
        '4'
    } else if d == 5 {
        '5'
    } else if d == 6 {
        '6'
    } else if d == 7 {
        '7'
    } else if d == 8 {
        '8'
    } else {
        '9'
    }
}

/// The decimal rendering of an `i32`, as `Display` would print it.
pub open spec fn spec_dec_i32(n: int) -> Seq<char> {
    if n < 0 {
        seq!['-'] + spec_dec_nat((-n) as nat)
    } else {
        spec_dec_nat(n as nat)
    }
}

/// The decimal digits of `n`, as characters.
pub fn dec_u64_chars(n: u64) -> (r: Vec<char>)
    ensures
        r@ == spec_dec_nat(n as nat),
    decreases n,
{
    if n < 10 {
        let d: char = if n == 0 {
            '0'
        } else if n == 1 {
            '1'
        } else if n == 2 {
            '2'
        } else if n == 3 {
            '3'
        } else if n == 4 {
            '4'
        } else if n == 5 {
            '5'
        } else if n == 6 {
            '6'
        } else if n == 7 {
            '7'
        } else if n == 8 {
            '8'
        } else {
            '9'
        };
        let mut r: Vec<char> = Vec::new();
        r.push(d);
        proof {
            assert(r@ =~= seq![spec_digit_char(n as nat)]);
        }
        r
    } else {
        let mut r = dec_u64_chars(n / 10);
        let m = n % 10;
        let d: char = if m == 0 {
            '0'
        } else if m == 1 {
            '1'
        } else if m == 2 {
            '2'
        } else if m == 3 {
            '3'
        } else if m == 4 {
            '4'
        } else if m == 5 {
            '5'
        } else if m == 6 {
            '6'
        } else if m == 7 {
            '7'
        } else if m == 8 {
            '8'
        } else {
            '9'
        };
        r.push(d);
        r
    }
}

/// The decimal rendering of an `i32`.
pub fn dec_i32_chars(n: i32) -> (r: Vec<char>)
    ensures
        r@ == spec_dec_i32(n as int),
{
    if n < 0 {
        let mut r: Vec<char> = Vec::new();
        r.push('-');
        let mag: u64 = if n == i32::MIN {
            0x8000_0000u64
        } else {
            (-n) as u64
        };
        let mut digits = dec_u64_chars(mag);
        r.append(&mut digits);
        proof {
            assert(r@ =~= seq!['-'] + spec_dec_nat(mag as nat));
        }
        r
    } else {
        dec_u64_chars(n as u64)
    }
}

/// How one command item looks as text: quoted literals regain their
/// quotes, variable references their `$`, subcommands their parentheses.
pub open spec fn spec_render_item(item: SpecItem) -> Seq<char>
    decreases item,
{
    match item {
        SpecItem::Literal(s) => seq!['"'] + s + seq!['"'],
        SpecItem::RawSegment(s) => s,
        SpecItem::VariableReference(s) => seq!['$'] + s,
        SpecItem::Subcommand(t) => seq!['('] + spec_render_tree(t) + seq![')'],
        SpecItem::Concatenation(items) => spec_render_items_joined(items, Seq::empty()),
    }
}

/// Renders a list of items, one after the other, with `sep` between them.
pub open spec fn spec_render_items_joined(items: Seq<SpecItem>, sep: Seq<char>) -> Seq<char>
    decreases items,
{
    if items.len() == 0 {
        Seq::empty()
    } else if items.len() == 1 {
        spec_render_item(items[0])
    } else {
        spec_render_item(items[0]) + sep + spec_render_items_joined(items.drop_first(), sep)
    }
}

pub open spec fn spec_render_kind(kind: OutputRedirectionKind) -> Seq<char> {
    match kind {
        OutputRedirectionKind::Create => seq!['>'],
        OutputRedirectionKind::Append => seq!['>', '>'],
        OutputRedirectionKind::Overwrite => seq!['>', '|'],
    }
}

/// How a pipeline stage looks as text; the redirections print after the
/// command they wrap, outermost last.
pub open spec fn spec_render_command(c: SpecCommand) -> Seq<char>
    decreases c,
{
    match c {
        SpecCommand::InputRedirection { inner, file_descriptor, source } => {
            spec_render_command(*inner) + seq![' '] + (match file_descriptor {
                Some(fd) => spec_dec_i32(fd as int),
                None => Seq::empty(),
            }) + seq!['<', ' '] + source
        },
        SpecCommand::OutputRedirection { inner, file_descriptor, destination, kind } => {
            spec_render_command(*inner) + seq![' '] + (match file_descriptor {
                Some(fd) => spec_dec_i32(fd as int),
                None => Seq::empty(),
            }) + spec_render_kind(kind) + destination
        },
        SpecCommand::Command(items) => spec_render_items_joined(items, seq![' ']),
    }
}

pub open spec fn spec_render_stages(chain: Seq<SpecCommand>) -> Seq<char>
    decreases chain,
{
    if chain.len() == 0 {
        Seq::empty()
    } else if chain.len() == 1 {
        spec_render_command(chain[0])
    } else {
        spec_render_command(chain[0]) + seq![' ', '|', ' '] + spec_render_stages(
            chain.drop_first(),
        )
    }
}

pub open spec fn spec_render_tree(t: SpecTree) -> Seq<char>
    decreases t,
{
    match t {
        SpecTree::Command(c) => spec_render_command(c),
        SpecTree::PipeChain(chain) => spec_render_stages(chain),
    }
}

impl CommandItem {
    /// The textual form of this item.
    pub fn render_chars(&self) -> (r: Vec<char>)
        ensures
            r@ == spec_render_item(item_view(*self)),
        decreases *self, 0int,
    {
        match self {
            CommandItem::Literal(s) => {
                let mut r: Vec<char> = Vec::new();
                r.push('"');
                let mut mid = crate::text::to_char_vec(s.as_str());
                r.append(&mut mid);
                r.push('"');
                proof {
                    assert(r@ =~= seq!['"'] + s@ + seq!['"']);
                }
                r
            },
            CommandItem::RawSegment(s) => crate::text::to_char_vec(s.as_str()),
            CommandItem::VariableReference(s) => {
                let mut r: Vec<char> = Vec::new();
                r.push('$');
                let mut mid = crate::text::to_char_vec(s.as_str());
                r.append(&mut mid);
                proof {
                    assert(r@ =~= seq!['$'] + s@);
                }
                r
            },
            CommandItem::Subcommand(t) => {
                let mut r: Vec<char> = Vec::new();
                r.push('(');
                let mut mid = t.render_chars();
                r.append(&mut mid);
                r.push(')');
                proof {
                    assert(r@ =~= seq!['('] + spec_render_tree(tree_view(**t)) + seq![')']);
                }
                r
            },
            CommandItem::Concatenation(items) => {
                let sep: Vec<char> = Vec::new();
                let r = render_items_joined(items, 0, &sep);
                proof {
                    assert(items_view(items@).skip(0) =~= items_view(items@));
                    assert(sep@ =~= Seq::<char>::empty());
                }
                r
            },
        }
    }

    /// The textual form of this item, as a `String`.
    pub fn render(&self) -> (r: String)
        ensures
            r@ == spec_render_item(item_view(*self)),
    {
        let chars = self.render_chars();
        crate::text::string_from_chars(&chars)
    }
}

/// Renders the items of `items` from position `k` on, separated by `sep`.
fn render_items_joined(items: &Vec<CommandItem>, k: usize, sep: &Vec<char>) -> (r: Vec<char>)
    requires
        k <= items@.len(),
    ensures
        r@ == spec_render_items_joined(items_view(items@).skip(k as int), sep@),
    decreases *items, items@.len() - k,
{
    proof {
        lemma_items_view_len(items@);
    }
    if k >= items.len() {
        proof {
            assert(items_view(items@).skip(k as int) =~= Seq::<SpecItem>::empty());
        }
        Vec::new()
    } else {
        let mut r = items[k].render_chars();
        proof {
            lemma_items_view_index(items@, k as int);
            assert(items_view(items@).skip(k as int)[0] == item_view(items@[k as int]));
        }
        if k + 1 < items.len() {
            let mut sep2 = crate::text::subvec(sep, 0, sep.len());
            let mut rest = render_items_joined(items, k + 1, sep);
            let ghost gsep2 = sep2@;
            let ghost grest = rest@;
            r.append(&mut sep2);
            r.append(&mut rest);
            proof {
                assert(gsep2 =~= sep@);
                assert(items_view(items@).skip(k as int).drop_first() =~= items_view(
                    items@,
                ).skip(k + 1));
                assert(items_view(items@).skip(k as int).len() > 1);
            }
        } else {
            proof {
                assert(items_view(items@).skip(k as int).len() == 1);
            }
        }
        r
    }
}

impl CommandSyntax {
    /// The textual form of this stage.
    pub fn render_chars(&self) -> (r: Vec<char>)
        ensures
            r@ == spec_render_command(command_view(*self)),
        decreases *self, 0int,
    {
        match self {
            CommandSyntax::InputRedirection { inner, file_descriptor, source } => {
                let mut r = inner.render_chars();
                r.push(' ');
                match file_descriptor {
                    Some(fd) => {
                        let mut digits = dec_i32_chars(*fd);
                        r.append(&mut digits);
                    },
                    None => {},
                }
                r.push('<');
                r.push(' ');
                let mut src = crate::text::to_char_vec(source.as_str());
                r.append(&mut src);
                proof {
                    assert(r@ =~= spec_render_command(command_view(**inner)) + seq![' ']
                        + (match *file_descriptor {
                        Some(fd) => spec_dec_i32(fd as int),
                        None => Seq::empty(),
                    }) + seq!['<', ' '] + source@);
                }
                r
            },
            CommandSyntax::OutputRedirection { inner, file_descriptor, destination, kind } => {
                let mut r = inner.render_chars();
                r.push(' ');
                match file_descriptor {
                    Some(fd) => {
                        let mut digits = dec_i32_chars(*fd);
                        r.append(&mut digits);
                    },
                    None => {},
                }
                match kind {
                    OutputRedirectionKind::Create => {
                        r.push('>');
                    },
                    OutputRedirectionKind::Append => {
                        r.push('>');
                        r.push('>');
                    },
                    OutputRedirectionKind::Overwrite => {
                        r.push('>');
                        r.push('|');
                    },
                }
                let mut dst = crate::text::to_char_vec(destination.as_str());
                r.append(&mut dst);
                proof {
                    assert(r@ =~= spec_render_command(command_view(**inner)) + seq![' ']
                        + (match *file_descriptor {
                        Some(fd) => spec_dec_i32(fd as int),
                        None => Seq::empty(),
                    }) + spec_render_kind(*kind) + destination@);
                }
                r
            },
            CommandSyntax::Command(items) => {
                let mut sep: Vec<char> = Vec::new();
                sep.push(' ');
                let r = render_items_joined(items, 0, &sep);
                proof {
                    assert(sep@ =~= seq![' ']);
                    assert(items_view(items@).skip(0) =~= items_view(items@));
                }
                r
            },
        }
    }

    /// The textual form of this stage, as a `String`.
    pub fn render(&self) -> (r: String)
        ensures
            r@ == spec_render_command(command_view(*self)),
    {
        let chars = self.render_chars();
        crate::text::string_from_chars(&chars)
    }
}

impl SyntaxTree {
    /// The textual form of this tree; stages of a pipe chain print with
    /// ` | ` between them.
    pub fn render_chars(&self) -> (r: Vec<char>)
        ensures
            r@ == spec_render_tree(tree_view(*self)),
        decreases *self, 0int,
    {
        match self {
            SyntaxTree::Command(c) => c.render_chars(),
            SyntaxTree::PipeChain(chain) => {
                let r = render_stages(chain, 0);
                proof {
                    assert(stages_view(chain@).skip(0) =~= stages_view(chain@));
                }
                r
            },
        }
    }

    /// The textual form of this tree, as a `String`.
    pub fn render(&self) -> (r: String)
        ensures
            r@ == spec_render_tree(tree_view(*self)),
    {
        let chars = self.render_chars();
        crate::text::string_from_chars(&chars)
    }
}

/// Renders the stages of a pipe chain from position `k` on.
fn render_stages(chain: &Vec<CommandSyntax>, k: usize) -> (r: Vec<char>)
    requires
        k <= chain@.len(),
    ensures
        r@ == spec_render_stages(stages_view(chain@).skip(k as int)),
    decreases *chain, chain@.len() - k,
{
    proof {
        lemma_stages_view_len(chain@);
    }
    if k >= chain.len() {
        proof {
            assert(stages_view(chain@).skip(k as int) =~= Seq::<SpecCommand>::empty());
        }
        Vec::new()
    } else {
        let mut r = chain[k].render_chars();
        proof {
            lemma_stages_view_index(chain@, k as int);
            assert(stages_view(chain@).skip(k as int)[0] == command_view(chain@[k as int]));
        }
        if k + 1 < chain.len() {
            let mut rest = render_stages(chain, k + 1);
            r.push(' ');
            r.push('|');
            r.push(' ');
            r.append(&mut rest);
            proof {
                assert(stages_view(chain@).skip(k as int).drop_first() =~= stages_view(
                    chain@,
                ).skip(k + 1));
                assert(stages_view(chain@).skip(k as int).len() > 1);
                assert(r@ =~= spec_render_command(command_view(chain@[k as int])) + seq![
                    ' ',
                    '|',
                    ' ',
                ] + spec_render_stages(stages_view(chain@).skip(k + 1)));
            }
        } else {
            proof {
                assert(stages_view(chain@).skip(k as int).len() == 1);
            }
        }
        r
    }
}

} // verus!
