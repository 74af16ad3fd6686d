use diff_by_time::bash_parser::{ast_outline, build_tree, AstNode, BashParser, NodeRow};

fn leaf(kind: &str, a: usize, b: usize) -> AstNode {
    AstNode {
        kind: kind.to_string(),
        start_byte: a,
        end_byte: b,
        start_position: (0, a),
        end_position: (0, b),
        children: Vec::new(),
    }
}

fn row(kind: &str, a: usize, b: usize, depth: usize) -> NodeRow {
    NodeRow {
        kind: kind.to_string(),
        start_byte: a,
        end_byte: b,
        start_row: 0,
        start_col: a,
        end_row: 0,
        end_col: b,
        depth,
    }
}

fn shape(n: &AstNode) -> String {
    let kids: Vec<String> = n.children.iter().map(shape).collect();
    if kids.is_empty() {
        n.kind.clone()
    } else {
        format!("{}({})", n.kind, kids.join(" "))
    }
}

#[test]
fn parse_simple_pipeline() {
    let mut p = BashParser::new().expect("bash grammar");
    let ast = p.parse_to_ast("echo 1 | grep 1").expect("a tree");
    assert_eq!(ast.kind, "program");
}

#[test]
fn parsed_pipeline_has_both_commands() {
    let mut p = BashParser::new().expect("bash grammar");
    let ast = p.parse_to_ast("echo 1 | grep 1").expect("a tree");
    assert_eq!(ast.start_byte, 0);
    assert_eq!(ast.end_byte, 15);
    assert_eq!(ast.children.len(), 1);
    assert_eq!(ast.children[0].kind, "pipeline");
    let commands: Vec<&AstNode> = ast.children[0].children.iter().filter(|c| c.kind == "command").collect();
    assert_eq!(commands.len(), 2);
    assert_eq!((commands[1].start_byte, commands[1].end_byte), (9, 15));
    assert!(p.parse_to_tree("ls").is_some());
}

#[test]
fn outline_indents_children() {
    let mut root = leaf("program", 0, 4);
    let mut cmd = leaf("command", 0, 4);
    cmd.children.push(leaf("word", 0, 2));
    cmd.children.push(leaf("word", 3, 4));
    root.children.push(cmd);
    let mut out = String::from(">");
    ast_outline(&root, 0, &mut out);
    assert_eq!(
        out,
        ">program [0..4] (0,0)->(0,4)\n  command [0..4] (0,0)->(0,4)\n    word [0..2] (0,0)->(0,2)\n    word [3..4] (0,3)->(0,4)\n"
    );
    let mut one = String::new();
    ast_outline(&leaf("x", 1, 2), 2, &mut one);
    assert_eq!(one, "    x [1..2] (0,1)->(0,2)\n");
}

#[test]
fn trees_from_preorder_rows() {
    let rows = vec![
        row("program", 0, 9, 0),
        row("command", 0, 4, 1),
        row("word", 0, 2, 2),
        row("word", 3, 4, 2),
        row("comment", 5, 9, 1),
    ];
    let t = build_tree(&rows).expect("well-formed rows");
    assert_eq!(shape(&t), "program(command(word word) comment)");
    assert_eq!(t.children[1].start_byte, 5);
    assert_eq!(t.children[0].children[1].end_position, (0, 4));
    assert!(build_tree(&Vec::new()).is_none());
    assert!(build_tree(&vec![row("a", 0, 1, 1)]).is_none());
    assert!(build_tree(&vec![row("a", 0, 1, 0), row("b", 0, 1, 2)]).is_none());
    assert!(build_tree(&vec![row("a", 0, 1, 0), row("b", 0, 1, 0)]).is_none());
}
