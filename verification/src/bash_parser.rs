//! Bash syntax trees: the tree `tree-sitter-bash` builds for a snippet,
//! held as plain nodes, and its outline, one node per line indented by
//! depth.

use vstd::prelude::*;
use crate::text::{dec_digits, decimal, push_char, push_str};

verus! {

/// One node of a syntax tree: its kind, its byte range, where it starts and
/// ends (row, column), and its children in order.
#[derive(Debug)]
pub struct AstNode {
    pub kind: String,
    pub start_byte: usize,
    pub end_byte: usize,
    pub start_position: (usize, usize),
    pub end_position: (usize, usize),
    pub children: Vec<AstNode>,
}

/// The outline line of one node: indentation of two spaces per level, the
/// kind, the byte range and the positions.
pub open spec fn outline_line(n: AstNode, indent: nat) -> Seq<char> {
    Seq::new(2 * indent, |i: int| ' ') + n.kind@ + " ["@ + dec_digits(n.start_byte as nat) + ".."@
        + dec_digits(n.end_byte as nat) + "] ("@ + dec_digits(n.start_position.0 as nat) + ","@
        + dec_digits(n.start_position.1 as nat) + ")->("@ + dec_digits(n.end_position.0 as nat) + ","@
        + dec_digits(n.end_position.1 as nat) + ")\n"@
}

/// The outline of a tree: its line, then the outlines of its children one
/// level deeper.
pub open spec fn outline(n: AstNode, indent: nat) -> Seq<char>
    decreases n, 1nat,
{
    outline_line(n, indent) + outline_all(n.children@, indent + 1)
}

/// The outlines of `ns`, in order.
pub open spec fn outline_all(ns: Seq<AstNode>, indent: nat) -> Seq<char>
    decreases ns, 0nat,
{
    if ns.len() == 0 {
        seq![]
    } else {
        outline_all(ns.drop_last(), indent) + outline(ns.last(), indent)
    }
}

/// Every node of the tree, at its depth below `indent`, can be indented
/// without overflow.
pub open spec fn indent_fits(n: AstNode, indent: nat) -> bool
    decreases n, 1nat,
{
    2 * indent <= usize::MAX && indent_fits_all(n.children@, indent + 1)
}

/// `indent_fits` for each of `ns`.
pub open spec fn indent_fits_all(ns: Seq<AstNode>, indent: nat) -> bool
    decreases ns, 0nat,
{
    if ns.len() == 0 {
        true
    } else {
        indent_fits_all(ns.drop_last(), indent) && indent_fits(ns.last(), indent)
    }
}

/// `indent_fits_all` holds of every node of the list.
proof fn lemma_fits_each(ns: Seq<AstNode>, indent: nat, i: int)
    requires
        indent_fits_all(ns, indent),
        0 <= i < ns.len(),
    ensures
        indent_fits(ns[i], indent),
    decreases ns.len(),
{
    if i < ns.len() - 1 {
        assert(ns.drop_last()[i] == ns[i]);
        lemma_fits_each(ns.drop_last(), indent, i);
    }
}

/// Appends the outline of `ast`, indented `indent` levels, to `out`.
pub fn ast_outline(ast: &AstNode, indent: usize, out: &mut String)
    requires
        indent_fits(*ast, indent as nat),
    ensures
        final(out)@ == old(out)@ + outline(*ast, indent as nat),
    decreases ast,
{
    let ghost start = out@;
    let mut k: usize = 0;
    while k < 2 * indent
        invariant
            2 * indent <= usize::MAX,
            k <= 2 * indent,
            out@ == start + Seq::new(k as nat, |i: int| ' '),
        decreases 2 * indent - k,
    {
        push_char(out, ' ');
        k += 1;
        assert(out@ =~= start + Seq::new(k as nat, |i: int| ' '));
    }
    push_str(out, ast.kind.as_str());
    push_str(out, " [");
    push_str(out, decimal(ast.start_byte as u64).as_str());
    push_str(out, "..");
    push_str(out, decimal(ast.end_byte as u64).as_str());
    push_str(out, "] (");
    push_str(out, decimal(ast.start_position.0 as u64).as_str());
    push_str(out, ",");
    push_str(out, decimal(ast.start_position.1 as u64).as_str());
    push_str(out, ")->(");
    push_str(out, decimal(ast.end_position.0 as u64).as_str());
    push_str(out, ",");
    push_str(out, decimal(ast.end_position.1 as u64).as_str());
    push_str(out, ")\n");
    let ghost line_end = out@;
    assert(line_end =~= start + outline_line(*ast, indent as nat));
    let ghost kids = ast.children@;
    let mut i: usize = 0;
    while i < ast.children.len()
        invariant
            kids == ast.children@,
            i <= kids.len(),
            indent_fits_all(kids, indent as nat + 1),
            out@ == line_end + outline_all(kids.take(i as int), indent as nat + 1),
            2 * indent <= usize::MAX,
        decreases kids.len() - i,
    {
        proof {
            lemma_fits_each(kids, indent as nat + 1, i as int);
            assert(kids.take(i + 1).drop_last() =~= kids.take(i as int));
            assert(kids.take(i + 1).last() == kids[i as int]);
        }
        ast_outline(&ast.children[i], indent + 1, out);
        i += 1;
    }
    assert(kids.take(i as int) =~= kids);
}

/// One node of a tree in preorder, with its depth below the root.
#[derive(Debug)]
pub struct NodeRow {
    pub kind: String,
    pub start_byte: usize,
    pub end_byte: usize,
    pub start_row: usize,
    pub start_col: usize,
    pub end_row: usize,
    pub end_col: usize,
    pub depth: usize,
}

/// What a row says of a node: its kind, its byte range, where it starts
/// and ends (row, column), and its depth.
pub type RowView = (Seq<char>, (usize, usize), (usize, usize), (usize, usize), usize);

impl View for NodeRow {
    type V = RowView;

    open spec fn view(&self) -> RowView {
        (
            self.kind@,
            (self.start_byte, self.end_byte),
            (self.start_row, self.start_col),
            (self.end_row, self.end_col),
            self.depth,
        )
    }
}

/// The views of `rows`, in order.
pub open spec fn row_views(rows: Seq<NodeRow>) -> Seq<RowView> {
    rows.map_values(|r: NodeRow| r@)
}

/// The row describes node `n` at depth `d`.
pub open spec fn row_is(r: RowView, n: AstNode, d: int) -> bool {
    &&& r.0 == n.kind@
    &&& r.1 == (n.start_byte, n.end_byte)
    &&& r.2 == n.start_position
    &&& r.3 == n.end_position
    &&& r.4 == d
}

/// The nodes of a tree in preorder, each with its depth (the root at `d`).
pub open spec fn preorder(n: AstNode, d: int) -> Seq<(AstNode, int)>
    decreases n, 1nat,
{
    seq![(n, d)] + preorder_all(n.children@, d + 1)
}

/// The preorders of `ns`, in order, each root at depth `d`.
pub open spec fn preorder_all(ns: Seq<AstNode>, d: int) -> Seq<(AstNode, int)>
    decreases ns, 0nat,
{
    if ns.len() == 0 {
        seq![]
    } else {
        preorder_all(ns.drop_last(), d) + preorder(ns.last(), d)
    }
}

/// The rows describe the nodes, one for one.
pub open spec fn rows_match(rows: Seq<RowView>, f: Seq<(AstNode, int)>) -> bool {
    rows.len() == f.len() && forall|i: int| 0 <= i < rows.len() ==> row_is(#[trigger] rows[i], f[i].0, f[i].1)
}

/// Rows that a tree can have: the root first at depth 0, every later row
/// at depth at least 1 and at most one below the row before it.
pub open spec fn rows_ok(rows: Seq<RowView>) -> bool {
    &&& rows.len() > 0
    &&& rows[0].4 == 0
    &&& forall|i: int| 1 <= i < rows.len() ==> (#[trigger] rows[i]).4 >= 1
    &&& forall|i: int| 0 <= i < rows.len() - 1 ==> (#[trigger] rows[i + 1]).4 <= rows[i].4 + 1
}

/// In rows that a tree can have, no row is deeper than its position.
proof fn lemma_depth_bound(rows: Seq<RowView>, i: int)
    requires
        rows_ok(rows),
        0 <= i < rows.len(),
    ensures
        rows[i].4 <= i,
    decreases i,
{
    if i > 0 {
        lemma_depth_bound(rows, i - 1);
        assert(rows[(i - 1) + 1].4 <= rows[i - 1].4 + 1);
    }
}

/// Matching rows can be put side by side.
proof fn lemma_match_concat(a: Seq<RowView>, f: Seq<(AstNode, int)>, b: Seq<RowView>, g: Seq<(AstNode, int)>)
    requires
        rows_match(a, f),
        rows_match(b, g),
    ensures
        rows_match(a + b, f + g),
{
    assert forall|i: int| 0 <= i < (a + b).len() implies row_is(#[trigger] (a + b)[i], (f + g)[i].0, (f + g)[i].1) by {
        if i < a.len() {
            assert((a + b)[i] == a[i]);
            assert((f + g)[i] == f[i]);
        } else {
            assert((a + b)[i] == b[i - a.len()]);
            assert((f + g)[i] == g[i - f.len()]);
        }
    }
}

/// The subtree whose root is row `pos` (at depth `d`): its node, and the
/// position after its last row.
fn build_at(rows: &Vec<NodeRow>, pos: usize, d: usize) -> (r: (AstNode, usize))
    requires
        rows_ok(row_views(rows@)),
        pos < rows@.len(),
        rows@[pos as int].depth == d,
    ensures
        pos < r.1 <= rows@.len(),
        rows_match(row_views(rows@).subrange(pos as int, r.1 as int), preorder(r.0, d as int)),
        r.1 == rows@.len() || rows@[r.1 as int].depth <= d,
    decreases rows@.len() - pos,
{
    let ghost vs = row_views(rows@);
    let total = rows.len();
    let row = &rows[pos];
    let mut children: Vec<AstNode> = Vec::new();
    let mut next = pos + 1;
    proof {
        lemma_depth_bound(vs, pos as int);
        assert(vs[pos as int].4 == d);
        if pos + 1 < rows@.len() {
            assert(vs[pos as int + 1].4 <= vs[pos as int].4 + 1);
            assert(vs[pos as int + 1].4 == rows@[pos as int + 1].depth);
        }
        assert(vs.subrange(pos + 1, next as int) =~= Seq::<RowView>::empty());
        assert(preorder_all(children@, d + 1) =~= Seq::<(AstNode, int)>::empty());
    }
    while next < rows.len() && rows[next].depth == d + 1
        invariant
            vs == row_views(rows@),
            rows_ok(vs),
            total == rows@.len(),
            pos < next <= rows@.len(),
            d <= pos,
            rows_match(vs.subrange(pos + 1, next as int), preorder_all(children@, d + 1)),
            next < rows@.len() ==> rows@[next as int].depth <= d + 1,
        decreases rows@.len() - next,
    {
        let ghost before = children@;
        let (child, after) = build_at(rows, next, d + 1);
        proof {
            lemma_match_concat(
                vs.subrange(pos + 1, next as int),
                preorder_all(before, d + 1),
                vs.subrange(next as int, after as int),
                preorder(child, d + 1),
            );
            assert(vs.subrange(pos + 1, next as int) + vs.subrange(next as int, after as int) =~= vs.subrange(
                pos + 1,
                after as int,
            ));
        }
        children.push(child);
        proof {
            assert(children@.drop_last() =~= before);
        }
        next = after;
    }
    let node = AstNode {
        kind: row.kind.clone(),
        start_byte: row.start_byte,
        end_byte: row.end_byte,
        start_position: (row.start_row, row.start_col),
        end_position: (row.end_row, row.end_col),
        children,
    };
    proof {
        let head = vs.subrange(pos as int, pos + 1);
        assert(rows_match(head, seq![(node, d as int)])) by {
            assert(head[0] == vs[pos as int]);
            assert(vs[pos as int] == rows@[pos as int]@);
        }
        lemma_match_concat(head, seq![(node, d as int)], vs.subrange(pos + 1, next as int), preorder_all(node.children@, d + 1));
        assert(head + vs.subrange(pos + 1, next as int) =~= vs.subrange(pos as int, next as int));
        if next < rows@.len() {
            assert(rows@[next as int].depth != d + 1);
        }
    }
    (node, next)
}

/// The tree the rows describe: `None` when they are not rows a tree can
/// have.
pub fn build_tree(rows: &Vec<NodeRow>) -> (r: Option<AstNode>)
    ensures
        r is Some <==> rows_ok(row_views(rows@)),
        r is Some ==> rows_match(row_views(rows@), preorder(r->0, 0)),
{
    let ghost vs = row_views(rows@);
    if rows.len() == 0 || rows[0].depth != 0 {
        proof {
            if rows@.len() > 0 {
                assert(vs[0].4 == rows@[0].depth);
            }
        }
        return None;
    }
    let mut i: usize = 1;
    while i < rows.len()
        invariant
            vs == row_views(rows@),
            1 <= i <= rows@.len(),
            rows@[0].depth == 0,
            forall|j: int| 1 <= j < i ==> (#[trigger] rows@[j]).depth >= 1,
            forall|j: int| 0 <= j < i - 1 ==> (#[trigger] rows@[j + 1]).depth <= rows@[j].depth + 1,
        decreases rows@.len() - i,
    {
        if rows[i].depth < 1 || rows[i].depth - 1 > rows[i - 1].depth {
            proof {
                assert(vs[i as int].4 == rows@[i as int].depth);
                assert(vs[i - 1].4 == rows@[i - 1].depth);
                if rows@[i as int].depth >= 1 {
                    assert(vs[(i - 1) + 1].4 > vs[i - 1].4 + 1);
                }
            }
            return None;
        }
        i += 1;
    }
    proof {
        assert forall|j: int| 1 <= j < vs.len() implies (#[trigger] vs[j]).4 >= 1 by {
            assert(vs[j].4 == rows@[j].depth);
        }
        assert forall|j: int| 0 <= j < vs.len() - 1 implies (#[trigger] vs[j + 1]).4 <= vs[j].4 + 1 by {
            assert(vs[j + 1].4 == rows@[j + 1].depth);
            assert(vs[j].4 == rows@[j].depth);
        }
        assert(vs[0].4 == rows@[0].depth);
    }
    let (node, end) = build_at(rows, 0, 0);
    proof {
        assert(vs.subrange(0, end as int) =~= vs);
    }
    let ghost nv = node;
    let r = Some(node);
    assert(r->0 == nv);
    r
}

/// A `tree-sitter` parser.
#[verifier::external_type_specification]
#[verifier::external_body]
pub struct ExParser(tree_sitter::Parser);

/// A `tree-sitter` syntax tree.
#[verifier::external_type_specification]
#[verifier::external_body]
pub struct ExTree(tree_sitter::Tree);

/// The nodes of a `tree-sitter` tree in preorder (descendant index 0 being
/// the root), each as a row with its depth below the root.
pub uninterp spec fn tree_rows(tree: tree_sitter::Tree) -> Seq<RowView>;

/// The rows of the tree that `tree-sitter` builds for a text with the
/// grammar of `tree-sitter-bash`.
pub uninterp spec fn bash_rows(source: Seq<char>) -> Seq<RowView>;

/// `tree_sitter::Parser::new()`. Nothing is claimed of the parser.
#[verifier::external_body]
fn new_parser() -> (r: tree_sitter::Parser) {
    tree_sitter::Parser::new()
}

/// `Parser::set_language` with the grammar of `tree_sitter_bash::language()`,
/// `true` when the grammar was accepted. Claimed: it is. `set_language`
/// refuses only a grammar whose version lies outside
/// `MIN_COMPATIBLE_LANGUAGE_VERSION..=LANGUAGE_VERSION` (13 to 14 in this
/// `tree-sitter`), and the Bash grammar is version 14.
#[verifier::external_body]
fn set_bash_language(parser: &mut tree_sitter::Parser) -> (r: bool)
    ensures
        r,
{
    parser.set_language(&tree_sitter_bash::language()).is_ok()
}

/// `Parser::parse(source, None)` with the parser of a `BashParser`.
/// Claimed: there is a tree, and its rows are the named `bash_rows` of the
/// text. `parse` gives no tree only when the parser has no grammar, or a
/// timeout or cancellation flag set by `set_timeout_micros` or
/// `set_cancellation_flag` stops it; a `BashParser` is made only by
/// `BashParser::new` once `set_language` has accepted the Bash grammar, and
/// nothing here sets a timeout or a flag. The tree is a function of the
/// text: the parse starts with no earlier tree.
#[verifier::external_body]
fn parse_source(p: &mut BashParser, source: &str) -> (r: Option<tree_sitter::Tree>)
    ensures
        r is Some,
        tree_rows(r->0) == bash_rows(source@),
{
    p.parser.parse(source, None)
}

/// The number of nodes of a tree (`root_node().descendant_count()`, which
/// counts the root too). Claimed: the number of its rows.
#[verifier::external_body]
fn node_count(tree: &tree_sitter::Tree) -> (r: usize)
    ensures
        r == tree_rows(*tree).len(),
{
    tree.root_node().descendant_count()
}

/// Node `i` of the tree in preorder, with its depth below the root (a
/// cursor's `goto_descendant(i)`, then its node's kind, byte range and
/// positions, and the cursor's depth). Claimed: row `i` of the tree.
#[verifier::external_body]
fn node_row(tree: &tree_sitter::Tree, i: usize) -> (r: NodeRow)
    requires
        i < tree_rows(*tree).len(),
    ensures
        r@ == tree_rows(*tree)[i as int],
{
    let mut cursor = tree.walk();
    cursor.goto_descendant(i);
    let n = cursor.node();
    NodeRow {
        kind: n.kind().to_string(),
        start_byte: n.start_byte(),
        end_byte: n.end_byte(),
        start_row: n.start_position().row,
        start_col: n.start_position().column,
        end_row: n.end_position().row,
        end_col: n.end_position().column,
        depth: cursor.depth() as usize,
    }
}

/// Parses Bash with `tree-sitter-bash`.
pub struct BashParser {
    parser: tree_sitter::Parser,
}

impl BashParser {
    /// A parser for Bash. The Bash grammar is always accepted, so this
    /// never fails; the error (`load bash grammar`) would say that it was
    /// refused.
    pub fn new() -> (r: Result<Self, String>)
        ensures
            r is Ok,
    {
        let mut parser = new_parser();
        if !set_bash_language(&mut parser) {
            return Err(crate::text::owned("load bash grammar"));
        }
        Ok(BashParser { parser })
    }

    /// The `tree-sitter` tree of `source`: there always is one, and its
    /// rows are those `tree-sitter-bash` gives the text.
    pub fn parse_to_tree(&mut self, source: &str) -> (r: Option<tree_sitter::Tree>)
        ensures
            r is Some,
            tree_rows(r->0) == bash_rows(source@),
    {
        parse_source(self, source)
    }

    /// The tree of `source` as plain nodes: `Ok` exactly when the rows of
    /// the tree `tree-sitter-bash` gives the text are rows a tree can have,
    /// and then a tree whose nodes, in preorder with their depths, are
    /// those rows; else the error text.
    pub fn parse_to_ast(&mut self, source: &str) -> (r: Result<AstNode, String>)
        ensures
            r is Ok <==> rows_ok(bash_rows(source@)),
            r is Ok ==> rows_match(bash_rows(source@), preorder(r->Ok_0, 0)),
            r is Err ==> r->Err_0@ == "无法解析输入为语法树"@,
    {
        let tree = match self.parse_to_tree(source) {
            Some(t) => t,
            None => {
                return Err(crate::text::owned("无法解析输入为语法树"));
            },
        };
        let ghost all = tree_rows(tree);
        let n = node_count(&tree);
        let mut rows: Vec<NodeRow> = Vec::new();
        let mut i: usize = 0;
        while i < n
            invariant
                i <= n,
                n == all.len(),
                all == tree_rows(tree),
                row_views(rows@) == all.take(i as int),
            decreases n - i,
        {
            let row = node_row(&tree, i);
            let ghost before = rows@;
            rows.push(row);
            i += 1;
            proof {
                assert(rows@ =~= before.push(row));
                assert(row_views(before).len() == before.len());
                assert(before.len() == i - 1);
                assert forall|k: int| 0 <= k < i implies #[trigger] row_views(rows@)[k] == all.take(i as int)[k] by {
                    if k < i - 1 {
                        assert(rows@[k] == before[k]);
                        assert(row_views(before)[k] == all.take(i - 1)[k]);
                    } else {
                        assert(rows@[k] == row);
                    }
                }
                assert(row_views(rows@) =~= all.take(i as int));
            }
        }
        proof {
            assert(all.take(i as int) =~= all);
        }
        match build_tree(&rows) {
            Some(ast) => {
                let ghost av = ast;
                let r = Ok(ast);
                assert(r->Ok_0 == av);
                r
            },
            None => Err(crate::text::owned("无法解析输入为语法树")),
        }
    }
}

} // verus!
