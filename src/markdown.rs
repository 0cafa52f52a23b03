use vstd::prelude::*;
use crate::types::LitNode;
use crate::chars::{chars_of, push_chars, push_str, same_text, string_of};
use crate::text::{clean_chars, codeblock_chars, codeblock_of, clean_text_of, replace_pair, replace_pair_chars};

verus! {

/// The literal text of a node list: text leaves concatenated in order,
/// calls contributing the literal text of their arguments, comments nothing.
pub open spec fn raw_text_of(nodes: Seq<LitNode>) -> Seq<char>
    decreases nodes,
{
    if nodes.len() == 0 {
        seq![]
    } else {
        raw_text_of(nodes.drop_last()) + raw_node(nodes.last())
    }
}

/// The literal text of one node.
pub open spec fn raw_node(n: LitNode) -> Seq<char>
    decreases n,
{
    match n {
        LitNode::Text(t) => t@,
        LitNode::Fn(_, args) => raw_args(args@),
        LitNode::Comment(_) => seq![],
    }
}

/// The literal text of each argument, concatenated in order.
pub open spec fn raw_args(args: Seq<Vec<LitNode>>) -> Seq<char>
    decreases args,
{
    if args.len() == 0 {
        seq![]
    } else {
        raw_args(args.drop_last()) + raw_text_of(args.last()@)
    }
}

fn raw_into(nodes: &Vec<LitNode>, out: &mut Vec<char>)
    ensures
        final(out)@ == old(out)@ + raw_text_of(nodes@),
    decreases nodes,
{
    let mut i: usize = 0;
    while i < nodes.len()
        invariant
            i <= nodes@.len(),
            out@ == old(out)@ + raw_text_of(nodes@.subrange(0, i as int)),
        decreases nodes@.len() - i,
    {
        let ghost before = out@;
        match &nodes[i] {
            LitNode::Text(t) => {
                push_str(out, t.as_str());
            },
            LitNode::Fn(name, args) => {
                let mut j: usize = 0;
                while j < args.len()
                    invariant
                        i < nodes@.len(),
                        nodes@[i as int] == LitNode::Fn(*name, *args),
                        j <= args@.len(),
                        out@ == old(out)@ + raw_text_of(nodes@.subrange(0, i as int)) + raw_args(args@.subrange(0, j as int)),
                    decreases args@.len() - j,
                {
                    proof {
                        let n = nodes@[i as int];
                        assert(decreases_to!(*nodes => nodes@[i as int]));
                        assert(decreases_to!(n => n->Fn_1));
                        assert(decreases_to!(*args => args[j as int]));
                    }
                    raw_into(&args[j], out);
                    assert(args@.subrange(0, j + 1).drop_last() == args@.subrange(0, j as int));
                    j = j + 1;
                }
                assert(args@.subrange(0, args@.len() as int) == args@);
                assert(raw_node(nodes@[i as int]) == raw_args(args@));
            },
            LitNode::Comment(_) => {},
        }
        assert(out@ =~= before + raw_node(nodes@[i as int]));
        assert(nodes@.subrange(0, i + 1).drop_last() == nodes@.subrange(0, i as int));
        assert(nodes@.subrange(0, i + 1).last() == nodes@[i as int]);
        assert(out@ =~= old(out)@ + raw_text_of(nodes@.subrange(0, i + 1)));
        i = i + 1;
    }
    assert(nodes@.subrange(0, nodes@.len() as int) == nodes@);
}

/// The literal text of `nodes`, ignoring what each call means.
pub fn raw_text(nodes: &Vec<LitNode>) -> (r: String)
    ensures
        r@ == raw_text_of(nodes@),
{
    let mut out: Vec<char> = Vec::new();
    raw_into(nodes, &mut out);
    string_of(&out)
}

/// Whether every call that rendering reaches has the arguments it reads.
pub open spec fn renderable(nodes: Seq<LitNode>) -> bool
    decreases nodes,
{
    if nodes.len() == 0 {
        true
    } else {
        renderable(nodes.drop_last()) && node_renderable(nodes.last())
    }
}

/// Whether rendering `n` reads only arguments that are there.
pub open spec fn node_renderable(n: LitNode) -> bool
    decreases n,
{
    match n {
        LitNode::Fn(name, args) => {
            if name@ == "example-toggle"@ {
                args.len() >= 2 && renderable(args[0]@) && renderable(args[1]@)
            } else if name@ == "reference"@ {
                (args.len() == 1 ==> renderable(args[0]@))
                    && (args.len() == 2 ==> renderable(args[0]@) && renderable(args[1]@))
            } else if name@ == "codeblock"@ {
                args.len() >= 2
            } else if name@ == "code"@ {
                args.len() >= 1
            } else if name@ == "bold"@ || name@ == "warn"@ {
                args.len() >= 1 && renderable(args[0]@)
            } else {
                args_renderable(args@)
            }
        },
        _ => true,
    }
}

/// Whether every argument is renderable.
pub open spec fn args_renderable(args: Seq<Vec<LitNode>>) -> bool
    decreases args,
{
    if args.len() == 0 {
        true
    } else {
        args_renderable(args.drop_last()) && renderable(args.last()@)
    }
}

/// The rendering of a node list before escapes are undone: each node
/// rendered, all concatenated.
pub open spec fn render_of(nodes: Seq<LitNode>) -> Seq<char>
    decreases nodes,
{
    if nodes.len() == 0 {
        seq![]
    } else {
        render_of(nodes.drop_last()) + render_node(nodes.last())
    }
}

/// The rendering of one node: text is reflowed, comments vanish, and a call
/// is rendered by its name.
pub open spec fn render_node(n: LitNode) -> Seq<char>
    decreases n,
{
    match n {
        LitNode::Text(t) => clean_text_of(t@),
        LitNode::Comment(_) => seq![],
        LitNode::Fn(name, args) => {
            if name@ == "example-toggle"@ {
                if args.len() >= 2 {
                    "\n@example "@ + render_of(args[0]@) + "\n"@ + render_of(args[1]@)
                } else {
                    seq![]
                }
            } else if name@ == "reference"@ {
                if args.len() == 1 {
                    "["@ + render_of(args[0]@) + "](#"@ + render_of(args[0]@) + ")"@
                } else if args.len() == 2 {
                    "["@ + render_of(args[1]@) + "](#"@ + render_of(args[0]@) + ")"@
                } else {
                    seq![]
                }
            } else if name@ == "codeblock"@ {
                if args.len() >= 2 {
                    "\n\n"@ + codeblock_of(raw_text_of(args[1]@)) + "\n\n"@
                } else {
                    seq![]
                }
            } else if name@ == "code"@ {
                if args.len() >= 1 {
                    "`"@ + raw_text_of(args[0]@) + "`"@
                } else {
                    seq![]
                }
            } else if name@ == "bold"@ {
                if args.len() >= 1 {
                    "**"@ + render_of(args[0]@) + "**"@
                } else {
                    seq![]
                }
            } else if name@ == "warn"@ {
                if args.len() >= 1 {
                    render_of(args[0]@)
                } else {
                    seq![]
                }
            } else {
                render_args(args@)
            }
        },
    }
}

/// The renderings of all arguments, concatenated in order.
pub open spec fn render_args(args: Seq<Vec<LitNode>>) -> Seq<char>
    decreases args,
{
    if args.len() == 0 {
        seq![]
    } else {
        render_args(args.drop_last()) + render_of(args.last()@)
    }
}

/// The markdown text of a node list: its rendering, with escaped braces
/// undone once over the whole.
pub open spec fn markdown_of(nodes: Seq<LitNode>) -> Seq<char> {
    replace_pair(replace_pair(render_of(nodes), '\\', '{'), '\\', '}')
}

fn render_into(nodes: &Vec<LitNode>, out: &mut Vec<char>)
    requires
        renderable(nodes@),
    ensures
        final(out)@ == old(out)@ + render_of(nodes@),
    decreases nodes,
{
    let mut i: usize = 0;
    while i < nodes.len()
        invariant
            renderable(nodes@),
            i <= nodes@.len(),
            out@ == old(out)@ + render_of(nodes@.subrange(0, i as int)),
        decreases nodes@.len() - i,
    {
        proof {
            lemma_renderable_at(nodes@, i as int);
        }
        let ghost before = out@;
        match &nodes[i] {
            LitNode::Text(t) => {
                let c = clean_chars(&chars_of(t.as_str()));
                push_chars(out, &c);
            },
            LitNode::Comment(_) => {},
            LitNode::Fn(name, args) => {
                proof {
                    let n = nodes@[i as int];
                    assert(decreases_to!(*nodes => nodes@[i as int]));
                    assert(decreases_to!(n => n->Fn_1));
                }
                assert(decreases_to!(*nodes => *args));
                render_call(name, args, out);
            },
        }
        assert(out@ =~= before + render_node(nodes@[i as int]));
        assert(nodes@.subrange(0, i + 1).drop_last() == nodes@.subrange(0, i as int));
        assert(nodes@.subrange(0, i + 1).last() == nodes@[i as int]);
        assert(out@ =~= old(out)@ + render_of(nodes@.subrange(0, i + 1)));
        i = i + 1;
    }
    assert(nodes@.subrange(0, nodes@.len() as int) == nodes@);
}

proof fn lemma_renderable_at(nodes: Seq<LitNode>, i: int)
    requires
        renderable(nodes),
        0 <= i < nodes.len(),
    ensures
        node_renderable(nodes[i]),
    decreases nodes.len(),
{
    if i < nodes.len() - 1 {
        lemma_renderable_at(nodes.drop_last(), i);
    }
}

proof fn lemma_args_renderable_at(args: Seq<Vec<LitNode>>, i: int)
    requires
        args_renderable(args),
        0 <= i < args.len(),
    ensures
        renderable(args[i]@),
    decreases args.len(),
{
    if i < args.len() - 1 {
        lemma_args_renderable_at(args.drop_last(), i);
    }
}

fn render_call(name: &String, args: &Vec<Vec<LitNode>>, out: &mut Vec<char>)
    requires
        node_renderable(LitNode::Fn(*name, *args)),
    ensures
        final(out)@ == old(out)@ + render_node(LitNode::Fn(*name, *args)),
    decreases args,
{
    proof {
        reveal_strlit("\n@example ");
        reveal_strlit("\n");
        reveal_strlit("[");
        reveal_strlit("](#");
        reveal_strlit(")");
        reveal_strlit("\n\n");
        reveal_strlit("`");
        reveal_strlit("**");
    }
    let n = args.len();
    if same_text(name.as_str(), "example-toggle") {
        assert(decreases_to!(*args => args[0]));
        assert(decreases_to!(*args => args[1]));
        push_str(out, "\n@example ");
        render_into(&args[0], out);
        out.push('\n');
        render_into(&args[1], out);
    } else if same_text(name.as_str(), "reference") {
        if n == 1 {
            assert(decreases_to!(*args => args[0]));
            let mut t: Vec<char> = Vec::new();
            render_into(&args[0], &mut t);
            out.push('[');
            push_chars(out, &t);
            push_str(out, "](#");
            push_chars(out, &t);
            out.push(')');
        } else if n == 2 {
            assert(decreases_to!(*args => args[0]));
            assert(decreases_to!(*args => args[1]));
            let mut target: Vec<char> = Vec::new();
            render_into(&args[0], &mut target);
            out.push('[');
            render_into(&args[1], out);
            push_str(out, "](#");
            push_chars(out, &target);
            out.push(')');
        }
    } else if same_text(name.as_str(), "codeblock") {
        let mut body: Vec<char> = Vec::new();
        raw_into(&args[1], &mut body);
        assert(body@ == raw_text_of(args[1]@));
        let block = codeblock_chars(&body);
        push_str(out, "\n\n");
        push_chars(out, &block);
        push_str(out, "\n\n");
    } else if same_text(name.as_str(), "code") {
        out.push('`');
        raw_into(&args[0], out);
        out.push('`');
    } else if same_text(name.as_str(), "bold") {
        assert(decreases_to!(*args => args[0]));
        push_str(out, "**");
        render_into(&args[0], out);
        push_str(out, "**");
    } else if same_text(name.as_str(), "warn") {
        assert(decreases_to!(*args => args[0]));
        render_into(&args[0], out);
    } else {
        let mut j: usize = 0;
        while j < n
            invariant
                n == args@.len(),
                args_renderable(args@),
                j <= n,
                out@ == old(out)@ + render_args(args@.subrange(0, j as int)),
            decreases n - j,
        {
            proof {
                lemma_args_renderable_at(args@, j as int);
            }
            assert(decreases_to!(*args => args[j as int]));
            render_into(&args[j], out);
            assert(args@.subrange(0, j + 1).drop_last() == args@.subrange(0, j as int));
            j = j + 1;
        }
        assert(args@.subrange(0, n as int) == args@);
    }
    assert(out@ =~= old(out)@ + render_node(LitNode::Fn(*name, *args)));
}

/// Renders a node list as markdown prose: text is reflowed, a fixed set of
/// call names gets its own rendering, any other call renders its arguments,
/// and comments vanish; escaped braces are undone once over the result.
pub fn text_to_markdown(nodes: &Vec<LitNode>) -> (r: String)
    requires
        renderable(nodes@),
    ensures
        r@ == markdown_of(nodes@),
{
    string_of(&markdown_chars(nodes))
}

/// The markdown text of `nodes`, as characters.
pub fn markdown_chars(nodes: &Vec<LitNode>) -> (r: Vec<char>)
    requires
        renderable(nodes@),
    ensures
        r@ == markdown_of(nodes@),
{
    let mut out: Vec<char> = Vec::new();
    render_into(nodes, &mut out);
    let a = replace_pair_chars(&out, '\\', '{');
    replace_pair_chars(&a, '\\', '}')
}

/// Whether `nodes` is renderable.
pub fn is_renderable(nodes: &Vec<LitNode>) -> (r: bool)
    ensures
        r == renderable(nodes@),
    decreases nodes,
{
    let mut i: usize = 0;
    while i < nodes.len()
        invariant
            i <= nodes@.len(),
            renderable(nodes@.subrange(0, i as int)),
        decreases nodes@.len() - i,
    {
        assert(nodes@.subrange(0, i + 1).drop_last() == nodes@.subrange(0, i as int));
        assert(nodes@.subrange(0, i + 1).last() == nodes@[i as int]);
        match &nodes[i] {
            LitNode::Fn(name, args) => {
                proof {
                    let n = nodes@[i as int];
                    assert(decreases_to!(*nodes => nodes@[i as int]));
                    assert(decreases_to!(n => n->Fn_1));
                }
                assert(decreases_to!(*nodes => *args));
                if !call_renderable(name, args) {
                    proof {
                        lemma_not_renderable(nodes@, i as int);
                    }
                    return false;
                }
            },
            _ => {},
        }
        assert(node_renderable(nodes@[i as int]));
        i = i + 1;
    }
    assert(nodes@.subrange(0, nodes@.len() as int) == nodes@);
    true
}

proof fn lemma_not_renderable(nodes: Seq<LitNode>, i: int)
    requires
        0 <= i < nodes.len(),
        !node_renderable(nodes[i]),
    ensures
        !renderable(nodes),
    decreases nodes.len(),
{
    if i < nodes.len() - 1 {
        lemma_not_renderable(nodes.drop_last(), i);
    }
}

fn call_renderable(name: &String, args: &Vec<Vec<LitNode>>) -> (r: bool)
    ensures
        r == node_renderable(LitNode::Fn(*name, *args)),
    decreases args,
{
    let n = args.len();
    if same_text(name.as_str(), "example-toggle") {
        if n < 2 {
            return false;
        }
        assert(decreases_to!(*args => args[0]));
        assert(decreases_to!(*args => args[1]));
        is_renderable(&args[0]) && is_renderable(&args[1])
    } else if same_text(name.as_str(), "reference") {
        if n == 1 {
            assert(decreases_to!(*args => args[0]));
            is_renderable(&args[0])
        } else if n == 2 {
            assert(decreases_to!(*args => args[0]));
            assert(decreases_to!(*args => args[1]));
            is_renderable(&args[0]) && is_renderable(&args[1])
        } else {
            true
        }
    } else if same_text(name.as_str(), "codeblock") {
        n >= 2
    } else if same_text(name.as_str(), "code") {
        n >= 1
    } else if same_text(name.as_str(), "bold") || same_text(name.as_str(), "warn") {
        if n < 1 {
            return false;
        }
        assert(decreases_to!(*args => args[0]));
        is_renderable(&args[0])
    } else {
        let mut j: usize = 0;
        assert(node_renderable(LitNode::Fn(*name, *args)) == args_renderable(args@));
        while j < n
            invariant
                n == args@.len(),
                j <= n,
                args_renderable(args@.subrange(0, j as int)),
                node_renderable(LitNode::Fn(*name, *args)) == args_renderable(args@),
            decreases n - j,
        {
            assert(args@.subrange(0, j + 1).drop_last() == args@.subrange(0, j as int));
            assert(decreases_to!(*args => args[j as int]));
            if !is_renderable(&args[j]) {
                proof {
                    lemma_args_not_renderable(args@, j as int);
                }
                return false;
            }
            j = j + 1;
        }
        assert(args@.subrange(0, n as int) == args@);
        true
    }
}

proof fn lemma_args_not_renderable(args: Seq<Vec<LitNode>>, i: int)
    requires
        0 <= i < args.len(),
        !renderable(args[i]@),
    ensures
        !args_renderable(args),
    decreases args.len(),
{
    if i < args.len() - 1 {
        lemma_args_not_renderable(args.drop_last(), i);
    }
}

/// The argument counts of the `reference` calls that rendering meets with
/// neither one nor two arguments, in the order rendering meets them; each
/// such call renders as nothing.
pub open spec fn warnings_of(nodes: Seq<LitNode>) -> Seq<usize>
    decreases nodes,
{
    if nodes.len() == 0 {
        seq![]
    } else {
        warnings_of(nodes.drop_last()) + node_warnings(nodes.last())
    }
}

/// The reference warnings that rendering one node gives.
pub open spec fn node_warnings(n: LitNode) -> Seq<usize>
    decreases n,
{
    match n {
        LitNode::Fn(name, args) => {
            if name@ == "example-toggle"@ {
                if args.len() >= 2 {
                    warnings_of(args[0]@) + warnings_of(args[1]@)
                } else {
                    seq![]
                }
            } else if name@ == "reference"@ {
                if args.len() == 1 {
                    warnings_of(args[0]@)
                } else if args.len() == 2 {
                    warnings_of(args[0]@) + warnings_of(args[1]@)
                } else {
                    seq![args.len() as usize]
                }
            } else if name@ == "codeblock"@ || name@ == "code"@ {
                seq![]
            } else if name@ == "bold"@ || name@ == "warn"@ {
                if args.len() >= 1 {
                    warnings_of(args[0]@)
                } else {
                    seq![]
                }
            } else {
                warnings_args(args@)
            }
        },
        _ => seq![],
    }
}

/// The reference warnings of each argument, in order.
pub open spec fn warnings_args(args: Seq<Vec<LitNode>>) -> Seq<usize>
    decreases args,
{
    if args.len() == 0 {
        seq![]
    } else {
        warnings_args(args.drop_last()) + warnings_of(args.last()@)
    }
}

fn warnings_into(nodes: &Vec<LitNode>, out: &mut Vec<usize>)
    requires
        renderable(nodes@),
    ensures
        final(out)@ == old(out)@ + warnings_of(nodes@),
    decreases nodes,
{
    let mut i: usize = 0;
    while i < nodes.len()
        invariant
            renderable(nodes@),
            i <= nodes@.len(),
            out@ == old(out)@ + warnings_of(nodes@.subrange(0, i as int)),
        decreases nodes@.len() - i,
    {
        proof {
            lemma_renderable_at(nodes@, i as int);
        }
        let ghost before = out@;
        match &nodes[i] {
            LitNode::Fn(name, args) => {
                proof {
                    let n = nodes@[i as int];
                    assert(decreases_to!(*nodes => nodes@[i as int]));
                    assert(decreases_to!(n => n->Fn_1));
                }
                assert(decreases_to!(*nodes => *args));
                warnings_call(name, args, out);
            },
            _ => {},
        }
        assert(out@ =~= before + node_warnings(nodes@[i as int]));
        assert(nodes@.subrange(0, i + 1).drop_last() == nodes@.subrange(0, i as int));
        assert(nodes@.subrange(0, i + 1).last() == nodes@[i as int]);
        assert(out@ =~= old(out)@ + warnings_of(nodes@.subrange(0, i + 1)));
        i = i + 1;
    }
    assert(nodes@.subrange(0, nodes@.len() as int) == nodes@);
}

fn warnings_call(name: &String, args: &Vec<Vec<LitNode>>, out: &mut Vec<usize>)
    requires
        node_renderable(LitNode::Fn(*name, *args)),
    ensures
        final(out)@ == old(out)@ + node_warnings(LitNode::Fn(*name, *args)),
    decreases args,
{
    let n = args.len();
    if same_text(name.as_str(), "example-toggle") {
        assert(decreases_to!(*args => args[0]));
        assert(decreases_to!(*args => args[1]));
        warnings_into(&args[0], out);
        warnings_into(&args[1], out);
    } else if same_text(name.as_str(), "reference") {
        if n == 1 {
            assert(decreases_to!(*args => args[0]));
            warnings_into(&args[0], out);
        } else if n == 2 {
            assert(decreases_to!(*args => args[0]));
            assert(decreases_to!(*args => args[1]));
            warnings_into(&args[0], out);
            warnings_into(&args[1], out);
        } else {
            out.push(n);
        }
    } else if same_text(name.as_str(), "codeblock") || same_text(name.as_str(), "code") {
    } else if same_text(name.as_str(), "bold") || same_text(name.as_str(), "warn") {
        assert(decreases_to!(*args => args[0]));
        warnings_into(&args[0], out);
    } else {
        let mut j: usize = 0;
        while j < n
            invariant
                n == args@.len(),
                args_renderable(args@),
                j <= n,
                out@ == old(out)@ + warnings_args(args@.subrange(0, j as int)),
            decreases n - j,
        {
            proof {
                lemma_args_renderable_at(args@, j as int);
            }
            assert(decreases_to!(*args => args[j as int]));
            warnings_into(&args[j], out);
            assert(args@.subrange(0, j + 1).drop_last() == args@.subrange(0, j as int));
            j = j + 1;
        }
        assert(args@.subrange(0, n as int) == args@);
    }
    assert(out@ =~= old(out)@ + node_warnings(LitNode::Fn(*name, *args)));
}

/// The argument counts of the `reference` calls in `nodes` that have
/// neither one nor two arguments, in rendering order: each is a warning that
/// the call rendered as nothing.
pub fn reference_warnings(nodes: &Vec<LitNode>) -> (r: Vec<usize>)
    requires
        renderable(nodes@),
    ensures
        r@ == warnings_of(nodes@),
{
    let mut out: Vec<usize> = Vec::new();
    warnings_into(nodes, &mut out);
    out
}

} // verus!
