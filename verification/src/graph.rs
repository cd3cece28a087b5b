//! Pictures of the task graph: Graphviz DOT text and a terminal tree.
//!
//! Both read the graph's nodes in index order, each a [`Task`] whose
//! `task_deps` name the tasks it depends on.

use vstd::prelude::*;
use crate::fmt::{dec, push_dec};
use crate::order::{is_stable_sort, stable_sort_indices};
use crate::task::{Task, TaskView};
use crate::text::{chars_of, push_all, push_str, str_eq, string_of, string_views, sub_chars};

verus! {

/// Output format of a graph picture.
#[derive(Debug, Clone, Copy, PartialEq, Eq, Structural)]
pub enum GraphFormat {
    Svg,
    Png,
    Pdf,
    Dot,
    Ascii,
    Auto,
}

/// How much a node's label says.
#[derive(Debug, Clone, Copy, PartialEq, Eq, Structural)]
pub enum NodeStyle {
    Simple,
    Detailed,
    Compact,
}

/// What a picture shows and where it goes.
#[derive(Debug, Clone)]
pub struct GraphOptions {
    pub show_details: bool,
    pub show_file_deps: bool,
    pub format: GraphFormat,
    pub style: NodeStyle,
    pub output_path: Option<String>,
}

impl Default for GraphOptions {
    fn default() -> (r: GraphOptions)
        ensures
            r.show_details,
            r.show_file_deps,
            r.format == GraphFormat::Svg,
            r.style == NodeStyle::Detailed,
            r.output_path is None,
    {
        GraphOptions {
            show_details: true,
            show_file_deps: true,
            format: GraphFormat::Svg,
            style: NodeStyle::Detailed,
            output_path: None,
        }
    }
}

/// Draws task graphs.
pub struct DagVisualizer {
    pub options: GraphOptions,
}

/// A character as DOT text needs it inside a quoted string.
pub open spec fn escape_char(c: char) -> Seq<char> {
    if c == '\\' {
        seq!['\\', '\\']
    } else if c == '"' {
        seq!['\\', '"']
    } else if c == '\n' {
        seq!['\\', 'n']
    } else if c == '\r' {
        seq!['\\', 'r']
    } else if c == '\t' {
        seq!['\\', 't']
    } else if c == '$' {
        seq!['\\', '$']
    } else if c == '{' {
        seq!['\\', '{']
    } else if c == '}' {
        seq!['\\', '}']
    } else {
        seq![c]
    }
}

/// `s` escaped for a quoted DOT string.
pub open spec fn escaped(s: Seq<char>) -> Seq<char>
    decreases s.len(),
{
    if s.len() == 0 {
        Seq::empty()
    } else {
        escaped(s.drop_last()) + escape_char(s.last())
    }
}

/// A file path turned into a node name: `/ . * - $ { }` become `_`.
pub open spec fn mangled(s: Seq<char>) -> Seq<char> {
    s.map_values(
        |c: char|
            if c == '/' || c == '.' || c == '*' || c == '-' || c == '$' || c == '{' || c == '}' {
                '_'
            } else {
                c
            },
    )
}

/// The number of bytes `c` takes in UTF-8.
pub open spec fn utf8_width(c: char) -> int {
    if (c as u32) < 0x80 {
        1
    } else if (c as u32) < 0x800 {
        2
    } else if (c as u32) < 0x10000 {
        3
    } else {
        4
    }
}

/// Whether the UTF-8 text of `h` has a character boundary `n` bytes in.
pub open spec fn boundary_at(h: Seq<char>, n: int) -> bool
    decreases h.len(),
{
    if n == 0 {
        true
    } else if n < 0 || h.len() == 0 {
        false
    } else {
        boundary_at(h.drop_first(), n - utf8_width(h[0]))
    }
}

/// How many characters of `h` fill its first `n` bytes.
pub open spec fn chars_in_bytes(h: Seq<char>, n: int) -> nat
    decreases h.len(),
{
    if n <= 0 || h.len() == 0 {
        0
    } else {
        1 + chars_in_bytes(h.drop_first(), n - utf8_width(h[0]))
    }
}

/// A hash a label may show the head of: its UTF-8 text is at least six
/// bytes long and has a character boundary at byte six.
pub open spec fn labelled_hash(h: Seq<char>) -> bool {
    boundary_at(h, 6)
}

/// The first six bytes of a hash, as characters.
pub open spec fn hash_head(h: Seq<char>) -> Seq<char> {
    h.take(chars_in_bytes(h, 6) as int)
}

/// A node's label.
pub open spec fn node_label(style: NodeStyle, show_details: bool, t: TaskView) -> Seq<char> {
    let tail = seq!['\n', '['] + hash_head(t.hash) + seq![']'];
    match style {
        NodeStyle::Simple => t.name,
        NodeStyle::Compact => t.name + tail,
        NodeStyle::Detailed => t.name + (if show_details && t.file_deps.len() > 0 {
            "\nInputs: "@ + dec(t.file_deps.len())
        } else {
            Seq::empty()
        }) + (if show_details && t.output_deps.len() > 0 {
            "\nOutputs: "@ + dec(t.output_deps.len())
        } else {
            Seq::empty()
        }) + (if show_details && t.envs.len() > 0 {
            "\nEnvs: "@ + dec(t.envs.len())
        } else {
            Seq::empty()
        }) + tail,
    }
}

/// The last node named `name`, searching the first `n` nodes.
pub open spec fn last_named(nodes: Seq<TaskView>, name: Seq<char>, n: nat) -> Option<nat>
    decreases n,
{
    if n == 0 {
        None
    } else if nodes[n - 1].name == name {
        Some((n - 1) as nat)
    } else {
        last_named(nodes, name, (n - 1) as nat)
    }
}

/// The first node named `name`, searching from node `k`.
pub open spec fn first_named(nodes: Seq<TaskView>, name: Seq<char>, k: nat) -> Option<nat>
    decreases nodes.len() - k,
{
    if k >= nodes.len() {
        None
    } else if nodes[k as int].name == name {
        Some(k)
    } else {
        first_named(nodes, name, k + 1)
    }
}

pub open spec fn node_id(i: nat) -> Seq<char> {
    "task_"@ + dec(i)
}

pub open spec fn dot_header() -> Seq<char> {
    "digraph otto_dag {\n"@ + "  label=\"Otto Task DAG\";\n"@ + "  labelloc=\"t\";\n"@
        + "  fontsize=\"16\";\n"@ + "  fontname=\"Helvetica\";\n"@ + "  rankdir=\"TB\";\n"@
        + "  bgcolor=\"white\";\n"@ + "  \n"@ + "  node [\n"@ + "    shape=\"box\",\n"@
        + "    style=\"rounded,filled\",\n"@ + "    fontname=\"Helvetica\",\n"@
        + "    fontsize=\"12\"\n"@ + "  ];\n"@ + "  \n"@ + "  edge [\n"@
        + "    fontname=\"Helvetica\",\n"@ + "    fontsize=\"10\"\n"@ + "  ];\n"@ + "  \n"@
}

pub open spec fn node_color(t: TaskView) -> Seq<char> {
    if t.file_deps.len() > 0 || t.output_deps.len() > 0 {
        "lightblue"@
    } else {
        "lightgray"@
    }
}

pub open spec fn node_line(i: nat, label: Seq<char>, color: Seq<char>) -> Seq<char> {
    "  "@ + node_id(i) + " [label=\""@ + escaped(label) + "\", fillcolor=\""@ + color + "\"];\n"@
}

/// The node lines of the first `n` nodes.
pub open spec fn node_lines(style: NodeStyle, show_details: bool, nodes: Seq<TaskView>, n: nat) -> Seq<
    char,
>
    decreases n,
{
    if n == 0 {
        Seq::empty()
    } else {
        node_lines(style, show_details, nodes, (n - 1) as nat) + node_line(
            (n - 1) as nat,
            node_label(style, show_details, nodes[n - 1]),
            node_color(nodes[n - 1]),
        )
    }
}

/// The `depends` edges into node `target` from its first `k` dependencies
/// that name a node.
pub open spec fn dep_edges(nodes: Seq<TaskView>, target: nat, deps: Seq<Seq<char>>, k: nat) -> Seq<char>
    decreases k,
{
    if k == 0 || k > deps.len() {
        Seq::empty()
    } else {
        dep_edges(nodes, target, deps, (k - 1) as nat) + match last_named(
            nodes,
            deps[k - 1],
            nodes.len(),
        ) {
            Some(s) => "  "@ + node_id(s) + " -> "@ + node_id(target)
                + " [label=\"depends\", color=\"black\"];\n"@,
            None => Seq::empty(),
        }
    }
}

/// The edges of the first `n` nodes, each into the last node of its name.
pub open spec fn edge_lines(nodes: Seq<TaskView>, n: nat) -> Seq<char>
    decreases n,
{
    if n == 0 {
        Seq::empty()
    } else {
        let t = nodes[n - 1];
        edge_lines(nodes, (n - 1) as nat) + match last_named(nodes, t.name, nodes.len()) {
            Some(target) => dep_edges(nodes, target, t.task_deps, t.task_deps.len()),
            None => Seq::empty(),
        }
    }
}

/// A file's node line and its edge to or from a task.
pub open spec fn file_node_line(id: Seq<char>, path: Seq<char>, input: bool) -> Seq<char> {
    "  "@ + id + " [label=\""@ + escaped(path) + "\", shape=\"ellipse\", fillcolor=\""@ + (if input {
        "lightgreen"@
    } else {
        "lightyellow"@
    }) + "\"];\n"@
}

pub open spec fn file_edge_line(id: Seq<char>, task_id: Seq<char>, input: bool) -> Seq<char> {
    if input {
        "  "@ + id + " -> "@ + task_id + " [label=\"input\", color=\"green\", style=\"dashed\"];\n"@
    } else {
        "  "@ + task_id + " -> "@ + id + " [label=\"output\", color=\"orange\", style=\"dashed\"];\n"@
    }
}

pub open spec fn file_prefix(input: bool) -> Seq<char> {
    if input {
        "file_"@
    } else {
        "output_"@
    }
}

/// The lines for the first `k` of one task's files, given the file nodes
/// already drawn; with the file nodes drawn after.
pub open spec fn file_lines(
    files: Seq<Seq<char>>,
    k: nat,
    task_id: Seq<char>,
    input: bool,
    seen: Seq<Seq<char>>,
) -> (Seq<char>, Seq<Seq<char>>)
    decreases k,
{
    if k == 0 || k > files.len() {
        (Seq::empty(), seen)
    } else {
        let before = file_lines(files, (k - 1) as nat, task_id, input, seen);
        let f = files[k - 1];
        let id = file_prefix(input) + mangled(f);
        let node = if before.1.contains(id) {
            Seq::empty()
        } else {
            file_node_line(id, f, input)
        };
        let seen2 = if before.1.contains(id) {
            before.1
        } else {
            before.1.push(id)
        };
        (before.0 + node + file_edge_line(id, task_id, input), seen2)
    }
}

/// The file lines of the first `n` nodes: each node's inputs, then its
/// outputs.
pub open spec fn files_section(nodes: Seq<TaskView>, n: nat) -> (Seq<char>, Seq<Seq<char>>)
    decreases n,
{
    if n == 0 {
        (Seq::empty(), Seq::empty())
    } else {
        let before = files_section(nodes, (n - 1) as nat);
        let t = nodes[n - 1];
        match last_named(nodes, t.name, nodes.len()) {
            Some(target) => {
                let ins = file_lines(t.file_deps, t.file_deps.len(), node_id(target), true, before.1);
                let outs = file_lines(t.output_deps, t.output_deps.len(), node_id(target), false, ins.1);
                (before.0 + ins.0 + outs.0, outs.1)
            },
            None => before,
        }
    }
}

/// `line` occurs somewhere in `text`.
pub open spec fn holds_line(text: Seq<char>, line: Seq<char>) -> bool {
    exists|a: Seq<char>, b: Seq<char>| text == a + line + b
}

/// The DOT edge between a task's node and one of its files: an input file
/// flows into the task, the task flows into an output file.
pub open spec fn task_file_edge(task_id: Seq<char>, path: Seq<char>, input: bool) -> Seq<char> {
    if input {
        "  "@ + "file_"@ + mangled(path) + " -> "@ + task_id + " [label=\"input\", color=\"green\", style=\"dashed\"];\n"@
    } else {
        "  "@ + task_id + " -> "@ + "output_"@ + mangled(path) + " [label=\"output\", color=\"orange\", style=\"dashed\"];\n"@
    }
}

proof fn lemma_holds_after(text: Seq<char>, line: Seq<char>, more: Seq<char>)
    requires
        holds_line(text, line),
    ensures
        holds_line(text + more, line),
{
    let (a, b) = choose|a: Seq<char>, b: Seq<char>| text == a + line + b;
    assert(text + more =~= a + line + (b + more));
}

proof fn lemma_holds_before(text: Seq<char>, line: Seq<char>, more: Seq<char>)
    requires
        holds_line(text, line),
    ensures
        holds_line(more + text, line),
{
    let (a, b) = choose|a: Seq<char>, b: Seq<char>| text == a + line + b;
    assert(more + text =~= (more + a) + line + b);
}

/// Each of the first `k` files gets its edge to or from the task.
proof fn lemma_file_lines_edges(
    files: Seq<Seq<char>>,
    k: nat,
    task_id: Seq<char>,
    input: bool,
    seen: Seq<Seq<char>>,
    j: int,
)
    requires
        0 <= j < k <= files.len(),
    ensures
        holds_line(file_lines(files, k, task_id, input, seen).0, task_file_edge(task_id, files[j], input)),
    decreases k,
{
    let before = file_lines(files, (k - 1) as nat, task_id, input, seen);
    let f = files[k - 1];
    let id = file_prefix(input) + mangled(f);
    let node = if before.1.contains(id) {
        Seq::<char>::empty()
    } else {
        file_node_line(id, f, input)
    };
    assert(file_lines(files, k, task_id, input, seen).0 == before.0 + node + file_edge_line(id, task_id, input));
    if j < k - 1 {
        lemma_file_lines_edges(files, (k - 1) as nat, task_id, input, seen, j);
        lemma_holds_after(before.0, task_file_edge(task_id, files[j], input), node + file_edge_line(id, task_id, input));
        assert(before.0 + (node + file_edge_line(id, task_id, input)) =~= before.0 + node + file_edge_line(
            id,
            task_id,
            input,
        ));
    } else {
        if input {
            assert(file_edge_line(id, task_id, input) =~= task_file_edge(task_id, f, input));
        } else {
            assert(file_edge_line(id, task_id, input) =~= task_file_edge(task_id, f, input));
        }
        let e = Seq::<char>::empty();
        assert(before.0 + node + file_edge_line(id, task_id, input) =~= (before.0 + node) + task_file_edge(
            task_id,
            f,
            input,
        ) + e);
    }
}

proof fn lemma_last_named_found(nodes: Seq<TaskView>, name: Seq<char>, n: nat, m: int)
    requires
        0 <= m < n,
        nodes[m].name == name,
    ensures
        last_named(nodes, name, n) is Some,
    decreases n,
{
    if nodes[n - 1].name != name {
        lemma_last_named_found(nodes, name, (n - 1) as nat, m);
    }
}

/// Every file of every one of the first `n` nodes gets its edge, from the
/// last node of the task's name.
proof fn lemma_files_section_edges(nodes: Seq<TaskView>, n: nat, m: int, j: int, input: bool)
    requires
        0 <= m < n <= nodes.len(),
        last_named(nodes, nodes[m].name, nodes.len()) is Some,
        0 <= j < (if input {
            nodes[m].file_deps.len()
        } else {
            nodes[m].output_deps.len()
        }),
    ensures
        holds_line(
            files_section(nodes, n).0,
            task_file_edge(
                node_id(last_named(nodes, nodes[m].name, nodes.len()).unwrap()),
                if input {
                    nodes[m].file_deps[j]
                } else {
                    nodes[m].output_deps[j]
                },
                input,
            ),
        ),
    decreases n,
{
    let before = files_section(nodes, (n - 1) as nat);
    let t = nodes[n - 1];
    let target = last_named(nodes, t.name, nodes.len());
    if m < n - 1 {
        lemma_files_section_edges(nodes, (n - 1) as nat, m, j, input);
        lemma_last_named_found(nodes, t.name, nodes.len(), n - 1);
        let tid = node_id(target.unwrap());
        let ins = file_lines(t.file_deps, t.file_deps.len(), tid, true, before.1);
        let outs = file_lines(t.output_deps, t.output_deps.len(), tid, false, ins.1);
        assert(files_section(nodes, n).0 == before.0 + ins.0 + outs.0);
        let line = task_file_edge(
            node_id(last_named(nodes, nodes[m].name, nodes.len()).unwrap()),
            if input {
                nodes[m].file_deps[j]
            } else {
                nodes[m].output_deps[j]
            },
            input,
        );
        lemma_holds_after(before.0, line, ins.0 + outs.0);
        assert(before.0 + (ins.0 + outs.0) =~= before.0 + ins.0 + outs.0);
    } else {
        let tid = node_id(target.unwrap());
        let ins = file_lines(t.file_deps, t.file_deps.len(), tid, true, before.1);
        let outs = file_lines(t.output_deps, t.output_deps.len(), tid, false, ins.1);
        assert(files_section(nodes, n).0 == before.0 + ins.0 + outs.0);
        if input {
            lemma_file_lines_edges(t.file_deps, t.file_deps.len(), tid, true, before.1, j);
            lemma_holds_before(ins.0, task_file_edge(tid, t.file_deps[j], true), before.0);
            lemma_holds_after(before.0 + ins.0, task_file_edge(tid, t.file_deps[j], true), outs.0);
        } else {
            lemma_file_lines_edges(t.output_deps, t.output_deps.len(), tid, false, ins.1, j);
            lemma_holds_before(outs.0, task_file_edge(tid, t.output_deps[j], false), before.0 + ins.0);
        }
    }
}

/// With file dependencies shown, the DOT text draws every input file of a
/// task as flowing into the task's node, and the task's node as flowing
/// into every output file: `task_K -> output_<path>` with the output label,
/// `file_<path> -> task_K` with the input label, where `task_K` is the last
/// node of the task's name.
pub proof fn dot_file_edges_point_from_inputs_and_to_outputs(
    options: GraphOptions,
    nodes: Seq<TaskView>,
    m: int,
    j: int,
    input: bool,
)
    requires
        options.show_file_deps,
        0 <= m < nodes.len(),
        0 <= j < (if input {
            nodes[m].file_deps.len()
        } else {
            nodes[m].output_deps.len()
        }),
    ensures
        last_named(nodes, nodes[m].name, nodes.len()) is Some,
        holds_line(
            dot_text(options, nodes),
            task_file_edge(
                node_id(last_named(nodes, nodes[m].name, nodes.len()).unwrap()),
                if input {
                    nodes[m].file_deps[j]
                } else {
                    nodes[m].output_deps[j]
                },
                input,
            ),
        ),
{
    lemma_last_named_found(nodes, nodes[m].name, nodes.len(), m);
    lemma_files_section_edges(nodes, nodes.len(), m, j, input);
    let line = task_file_edge(
        node_id(last_named(nodes, nodes[m].name, nodes.len()).unwrap()),
        if input {
            nodes[m].file_deps[j]
        } else {
            nodes[m].output_deps[j]
        },
        input,
    );
    let head = dot_header() + node_lines(options.style, options.show_details, nodes, nodes.len()) + "  \n"@
        + edge_lines(nodes, nodes.len()) + "  \n  // File dependencies\n"@;
    let fs = files_section(nodes, nodes.len()).0;
    lemma_holds_before(fs, line, head);
    lemma_holds_after(head + fs, line, "}\n"@);
    assert(dot_text(options, nodes) =~= head + fs + "}\n"@);
}

/// The DOT text for a graph with these nodes.
pub open spec fn dot_text(options: GraphOptions, nodes: Seq<TaskView>) -> Seq<char> {
    dot_header() + node_lines(options.style, options.show_details, nodes, nodes.len()) + "  \n"@
        + edge_lines(nodes, nodes.len()) + (if options.show_file_deps {
        "  \n  // File dependencies\n"@ + files_section(nodes, nodes.len()).0
    } else {
        Seq::empty()
    }) + "}\n"@
}

pub open spec fn node_views(nodes: Seq<Task>) -> Seq<TaskView> {
    nodes.map_values(|t: Task| t@)
}

pub open spec fn hashes_labelled(nodes: Seq<TaskView>) -> bool {
    forall|i: int| 0 <= i < nodes.len() ==> labelled_hash(#[trigger] nodes[i].hash)
}

/// How many characters of `h` fill its first six bytes.
fn head_len(h: &Vec<char>) -> (r: usize)
    requires
        labelled_hash(h@),
    ensures
        r == chars_in_bytes(h@, 6),
        r <= h.len(),
{
    let mut i: usize = 0;
    let mut bytes: u32 = 0;
    assert(h@.skip(0) =~= h@);
    while bytes < 6
        invariant
            i <= h.len(),
            bytes <= 6,
            boundary_at(h@.skip(i as int), 6 - bytes),
            chars_in_bytes(h@, 6) == i + chars_in_bytes(h@.skip(i as int), 6 - bytes),
        decreases 6 - bytes,
    {
        let ghost rest = h@.skip(i as int);
        assert(rest.len() > 0);
        assert(rest[0] == h@[i as int]);
        assert(rest.drop_first() =~= h@.skip(i + 1));
        let cp = h[i] as u32;
        let w: u32 = if cp < 0x80 {
            1
        } else if cp < 0x800 {
            2
        } else if cp < 0x10000 {
            3
        } else {
            4
        };
        assert(w == utf8_width(rest[0]));
        assert(boundary_at(rest.drop_first(), 6 - bytes - w));
        assert(6 - bytes - w >= 0) by {
            if 6 - bytes - w < 0 {
                assert(!boundary_at(rest.drop_first(), 6 - bytes - w));
            }
        }
        bytes = bytes + w;
        i = i + 1;
    }
    i
}

/// `"\n[" + head + "]"`, the hash line of a label.
fn hash_tail(task: &Task) -> (r: Vec<char>)
    requires
        labelled_hash(task@.hash),
    ensures
        r@ == seq!['\n', '['] + hash_head(task@.hash) + seq![']'],
{
    let hash = chars_of(task.hash.as_str());
    let n = head_len(&hash);
    let head = sub_chars(&hash, 0, n);
    assert(head@ =~= hash_head(task@.hash));
    let mut tail: Vec<char> = Vec::new();
    tail.push('\n');
    tail.push('[');
    push_all(&mut tail, head.as_slice());
    tail.push(']');
    tail
}

/// `s` escaped for a quoted DOT string, appended to `out`.
fn push_escaped(out: &mut Vec<char>, s: &Vec<char>)
    ensures
        final(out)@ == old(out)@ + escaped(s@),
{
    let mut i: usize = 0;
    while i < s.len()
        invariant
            i <= s.len(),
            out@ == old(out)@ + escaped(s@.take(i as int)),
        decreases s.len() - i,
    {
        let ghost before = out@;
        assert(s@.take(i + 1).drop_last() =~= s@.take(i as int));
        let c = s[i];
        if c == '\\' {
            out.push('\\');
            out.push('\\');
        } else if c == '"' {
            out.push('\\');
            out.push('"');
        } else if c == '\n' {
            out.push('\\');
            out.push('n');
        } else if c == '\r' {
            out.push('\\');
            out.push('r');
        } else if c == '\t' {
            out.push('\\');
            out.push('t');
        } else if c == '$' {
            out.push('\\');
            out.push('$');
        } else if c == '{' {
            out.push('\\');
            out.push('{');
        } else if c == '}' {
            out.push('\\');
            out.push('}');
        } else {
            out.push(c);
        }
        assert(out@ =~= before + escape_char(c));
        i = i + 1;
    }
    assert(s@.take(i as int) =~= s@);
}

fn push_mangled(out: &mut Vec<char>, s: &str)
    ensures
        final(out)@ == old(out)@ + mangled(s@),
{
    let cs = chars_of(s);
    let mut i: usize = 0;
    while i < cs.len()
        invariant
            i <= cs.len(),
            cs@ == s@,
            out@ == old(out)@ + mangled(s@).take(i as int),
        decreases cs.len() - i,
    {
        let c = cs[i];
        let m = if c == '/' || c == '.' || c == '*' || c == '-' || c == '$' || c == '{' || c == '}' {
            '_'
        } else {
            c
        };
        out.push(m);
        i = i + 1;
        assert(out@ =~= old(out)@ + mangled(s@).take(i as int));
    }
    assert(mangled(s@).take(i as int) =~= mangled(s@));
}

fn last_named_exec(nodes: &Vec<Task>, name: &str) -> (r: Option<usize>)
    ensures
        r matches Some(j) ==> j < nodes.len() && last_named(node_views(nodes@), name@, nodes.len() as nat)
            == Some(j as nat),
        r is None ==> last_named(node_views(nodes@), name@, nodes.len() as nat) is None,
{
    let ghost nv = node_views(nodes@);
    let mut n = nodes.len();
    while n > 0
        invariant
            n <= nodes.len(),
            nv == node_views(nodes@),
            last_named(nv, name@, nodes.len() as nat) == last_named(nv, name@, n as nat),
        decreases n,
    {
        assert(nv[n - 1] == nodes@[n - 1]@);
        if str_eq(nodes[n - 1].name.as_str(), name) {
            return Some(n - 1);
        }
        n = n - 1;
    }
    None
}

fn first_named_exec(nodes: &Vec<Task>, name: &str) -> (r: Option<usize>)
    ensures
        r matches Some(j) ==> j < nodes.len() && first_named(node_views(nodes@), name@, 0) == Some(
            j as nat,
        ),
        r is None ==> first_named(node_views(nodes@), name@, 0) is None,
{
    let ghost nv = node_views(nodes@);
    let mut k: usize = 0;
    while k < nodes.len()
        invariant
            k <= nodes.len(),
            nv == node_views(nodes@),
            first_named(nv, name@, 0) == first_named(nv, name@, k as nat),
        decreases nodes.len() - k,
    {
        assert(nv[k as int] == nodes@[k as int]@);
        if str_eq(nodes[k].name.as_str(), name) {
            return Some(k);
        }
        k = k + 1;
    }
    None
}

fn push_node_id(out: &mut Vec<char>, i: usize)
    ensures
        final(out)@ == old(out)@ + node_id(i as nat),
{
    push_str(out, "task_");
    push_dec(out, i as u64);
}

impl DagVisualizer {
    pub fn new(options: GraphOptions) -> (r: DagVisualizer)
        ensures
            r.options == options,
    {
        DagVisualizer { options }
    }

    pub fn with_defaults() -> (r: DagVisualizer)
        ensures
            r.options.show_details,
            r.options.show_file_deps,
            r.options.format == GraphFormat::Svg,
            r.options.style == NodeStyle::Detailed,
            r.options.output_path is None,
    {
        DagVisualizer::new(GraphOptions::default())
    }

    /// `s` escaped for a quoted DOT string: backslash, double quote, the
    /// line controls, and `$ { }` each get a backslash.
    pub fn escape_dot_string(&self, s: &str) -> (r: String)
        ensures
            r@ == escaped(s@),
    {
        let cs = chars_of(s);
        let mut out: Vec<char> = Vec::new();
        push_escaped(&mut out, &cs);
        string_of(out.as_slice())
    }

    /// A node's label, in the configured style.
    pub fn create_node_label(&self, task: &Task) -> (r: String)
        requires
            self.options.style == NodeStyle::Simple || labelled_hash(task@.hash),
        ensures
            r@ == node_label(self.options.style, self.options.show_details, task@),
    {
        let mut out = chars_of(task.name.as_str());
        match self.options.style {
            NodeStyle::Simple => {},
            NodeStyle::Compact => {
                let tail = hash_tail(task);
                push_all(&mut out, tail.as_slice());
            },
            NodeStyle::Detailed => {
                let tail = hash_tail(task);
                let ghost start = out@;
                if self.options.show_details && task.file_deps.len() > 0 {
                    push_str(&mut out, "\nInputs: ");
                    push_dec(&mut out, task.file_deps.len() as u64);
                }
                let ghost a = out@;
                if self.options.show_details && task.output_deps.len() > 0 {
                    push_str(&mut out, "\nOutputs: ");
                    push_dec(&mut out, task.output_deps.len() as u64);
                }
                let ghost b = out@;
                if self.options.show_details && task.envs.len() > 0 {
                    push_str(&mut out, "\nEnvs: ");
                    push_dec(&mut out, task.envs.len() as u64);
                }
                push_all(&mut out, tail.as_slice());
                assert(out@ =~= node_label(self.options.style, self.options.show_details, task@));
            },
        }
        string_of(out.as_slice())
    }

    /// The graph of `nodes`, in node order, as Graphviz DOT text: a box per task (blue when it has
    /// files), an edge from each dependency, and, when file dependencies are
    /// shown, a node per input and output file with its edge.
    pub fn dot_of_nodes(&self, nodes: &Vec<Task>) -> (r: Result<String, String>)
        requires
            self.options.style == NodeStyle::Simple || hashes_labelled(node_views(nodes@)),
        ensures
            r matches Ok(text) && text@ == dot_text(self.options, node_views(nodes@)),
    {
        let ghost nv = node_views(nodes@);
        let mut dot: Vec<char> = Vec::new();
        push_str(&mut dot, "digraph otto_dag {\n");
        push_str(&mut dot, "  label=\"Otto Task DAG\";\n");
        push_str(&mut dot, "  labelloc=\"t\";\n");
        push_str(&mut dot, "  fontsize=\"16\";\n");
        push_str(&mut dot, "  fontname=\"Helvetica\";\n");
        push_str(&mut dot, "  rankdir=\"TB\";\n");
        push_str(&mut dot, "  bgcolor=\"white\";\n");
        push_str(&mut dot, "  \n");
        push_str(&mut dot, "  node [\n");
        push_str(&mut dot, "    shape=\"box\",\n");
        push_str(&mut dot, "    style=\"rounded,filled\",\n");
        push_str(&mut dot, "    fontname=\"Helvetica\",\n");
        push_str(&mut dot, "    fontsize=\"12\"\n");
        push_str(&mut dot, "  ];\n");
        push_str(&mut dot, "  \n");
        push_str(&mut dot, "  edge [\n");
        push_str(&mut dot, "    fontname=\"Helvetica\",\n");
        push_str(&mut dot, "    fontsize=\"10\"\n");
        push_str(&mut dot, "  ];\n");
        push_str(&mut dot, "  \n");
        assert(dot@ =~= dot_header());
        self.push_node_lines(&mut dot, nodes);
        push_str(&mut dot, "  \n");
        push_edge_lines(&mut dot, nodes);
        let ghost before_files = dot@;
        if self.options.show_file_deps {
            push_str(&mut dot, "  \n  // File dependencies\n");
            push_files_section(&mut dot, nodes);
        }
        push_str(&mut dot, "}\n");
        assert(dot@ =~= dot_text(self.options, nv));
        Ok(string_of(dot.as_slice()))
    }

    fn push_node_lines(&self, dot: &mut Vec<char>, nodes: &Vec<Task>)
        requires
            self.options.style == NodeStyle::Simple || hashes_labelled(node_views(nodes@)),
        ensures
            final(dot)@ == old(dot)@ + node_lines(
                self.options.style,
                self.options.show_details,
                node_views(nodes@),
                nodes.len() as nat,
            ),
    {
        let ghost nv = node_views(nodes@);
        let mut i: usize = 0;
        while i < nodes.len()
            invariant
                i <= nodes.len(),
                nv == node_views(nodes@),
                self.options.style == NodeStyle::Simple || hashes_labelled(nv),
                dot@ == old(dot)@ + node_lines(self.options.style, self.options.show_details, nv, i as nat),
            decreases nodes.len() - i,
        {
            let t = &nodes[i];
            assert(nv[i as int] == t@);
            assert(self.options.style == NodeStyle::Simple || labelled_hash(nv[i as int].hash));
            let label = self.create_node_label(t);
            let lc = chars_of(label.as_str());
            let ghost before = dot@;
            push_str(dot, "  ");
            push_node_id(dot, i);
            push_str(dot, " [label=\"");
            push_escaped(dot, &lc);
            push_str(dot, "\", fillcolor=\"");
            if t.file_deps.len() > 0 || t.output_deps.len() > 0 {
                push_str(dot, "lightblue");
            } else {
                push_str(dot, "lightgray");
            }
            push_str(dot, "\"];\n");
            assert(dot@ =~= before + node_line(i as nat, label@, node_color(t@)));
            i = i + 1;
        }
    }
}

fn push_dep_edges(dot: &mut Vec<char>, nodes: &Vec<Task>, target: usize, deps: &Vec<String>)
    ensures
        final(dot)@ == old(dot)@ + dep_edges(
            node_views(nodes@),
            target as nat,
            string_views(deps@),
            deps.len() as nat,
        ),
{
    let ghost nv = node_views(nodes@);
    let ghost dv = string_views(deps@);
    let mut k: usize = 0;
    while k < deps.len()
        invariant
            k <= deps.len(),
            nv == node_views(nodes@),
            dv == string_views(deps@),
            dot@ == old(dot)@ + dep_edges(nv, target as nat, dv, k as nat),
        decreases deps.len() - k,
    {
        assert(dv[k as int] == deps@[k as int]@);
        let ghost inner = dot@;
        let ghost piece = match last_named(nv, dv[k as int], nv.len()) {
            Some(s) => "  "@ + node_id(s) + " -> "@ + node_id(target as nat)
                + " [label=\"depends\", color=\"black\"];\n"@,
            None => Seq::<char>::empty(),
        };
        assert(dep_edges(nv, target as nat, dv, (k + 1) as nat) == dep_edges(nv, target as nat, dv, k as nat) + piece);
        match last_named_exec(nodes, deps[k].as_str()) {
            Some(s) => {
                push_str(dot, "  ");
                push_node_id(dot, s);
                push_str(dot, " -> ");
                push_node_id(dot, target);
                push_str(dot, " [label=\"depends\", color=\"black\"];\n");
                assert(dot@ =~= inner + piece);
            },
            None => {
                assert(dot@ =~= inner + piece);
            },
        }
        k = k + 1;
    }
}

fn push_edge_lines(dot: &mut Vec<char>, nodes: &Vec<Task>)
    ensures
        final(dot)@ == old(dot)@ + edge_lines(node_views(nodes@), nodes.len() as nat),
{
    let ghost nv = node_views(nodes@);
    let mut i: usize = 0;
    while i < nodes.len()
        invariant
            i <= nodes.len(),
            nv == node_views(nodes@),
            dot@ == old(dot)@ + edge_lines(nv, i as nat),
        decreases nodes.len() - i,
    {
        let t = &nodes[i];
        assert(nv[i as int] == t@);
        let ghost before = dot@;
        let ghost piece = match last_named(nv, nv[i as int].name, nv.len()) {
            Some(target) => dep_edges(nv, target, nv[i as int].task_deps, nv[i as int].task_deps.len()),
            None => Seq::<char>::empty(),
        };
        assert(edge_lines(nv, (i + 1) as nat) == edge_lines(nv, i as nat) + piece);
        match last_named_exec(nodes, t.name.as_str()) {
            Some(target) => {
                push_dep_edges(dot, nodes, target, &t.task_deps);
                assert(dot@ =~= before + piece);
            },
            None => {
                assert(dot@ =~= before + piece);
            },
        }
        i = i + 1;
    }
}

fn push_files_section(dot: &mut Vec<char>, nodes: &Vec<Task>)
    ensures
        final(dot)@ == old(dot)@ + files_section(node_views(nodes@), nodes.len() as nat).0,
{
    let ghost nv = node_views(nodes@);
    let mut seen: Vec<String> = Vec::new();
    let mut i: usize = 0;
    assert(string_views(seen@) =~= Seq::<Seq<char>>::empty());
    while i < nodes.len()
        invariant
            i <= nodes.len(),
            nv == node_views(nodes@),
            dot@ == old(dot)@ + files_section(nv, i as nat).0,
            string_views(seen@) == files_section(nv, i as nat).1,
        decreases nodes.len() - i,
    {
        let t = &nodes[i];
        assert(nv[i as int] == t@);
        let ghost before = dot@;
        let ghost prev = files_section(nv, i as nat);
        match last_named_exec(nodes, t.name.as_str()) {
            Some(target) => {
                let mut tid: Vec<char> = Vec::new();
                push_node_id(&mut tid, target);
                let tid = string_of(tid.as_slice());
                let ghost ins = file_lines(
                    nv[i as int].file_deps,
                    nv[i as int].file_deps.len(),
                    node_id(target as nat),
                    true,
                    prev.1,
                );
                let ghost outs = file_lines(
                    nv[i as int].output_deps,
                    nv[i as int].output_deps.len(),
                    node_id(target as nat),
                    false,
                    ins.1,
                );
                assert(files_section(nv, (i + 1) as nat) == (prev.0 + ins.0 + outs.0, outs.1));
                push_file_lines(dot, &mut seen, &t.file_deps, tid.as_str(), true);
                push_file_lines(dot, &mut seen, &t.output_deps, tid.as_str(), false);
                assert(dot@ =~= old(dot)@ + files_section(nv, (i + 1) as nat).0);
            },
            None => {
                assert(files_section(nv, (i + 1) as nat) == prev);
            },
        }
        i = i + 1;
    }
}

#[verifier::rlimit(30)]
fn push_file_lines(
    dot: &mut Vec<char>,
    seen: &mut Vec<String>,
    files: &Vec<String>,
    task_id: &str,
    input: bool,
)
    ensures
        final(dot)@ == old(dot)@ + file_lines(
            string_views(files@),
            files.len() as nat,
            task_id@,
            input,
            string_views(old(seen)@),
        ).0,
        string_views(final(seen)@) == file_lines(
            string_views(files@),
            files.len() as nat,
            task_id@,
            input,
            string_views(old(seen)@),
        ).1,
{
    let ghost fv = string_views(files@);
    let ghost seen0 = string_views(seen@);
    let mut k: usize = 0;
    while k < files.len()
        invariant
            k <= files.len(),
            fv == string_views(files@),
            dot@ == old(dot)@ + file_lines(fv, k as nat, task_id@, input, seen0).0,
            string_views(seen@) == file_lines(fv, k as nat, task_id@, input, seen0).1,
        decreases files.len() - k,
    {
        assert(fv[k as int] == files@[k as int]@);
        let f = files[k].as_str();
        let mut idv: Vec<char> = Vec::new();
        if input {
            push_str(&mut idv, "file_");
        } else {
            push_str(&mut idv, "output_");
        }
        push_mangled(&mut idv, f);
        let id = string_of(idv.as_slice());
        let ghost prev = file_lines(fv, k as nat, task_id@, input, seen0);
        assert(id@ == file_prefix(input) + mangled(fv[k as int]));
        let ghost before = dot@;
        let fresh = !crate::text::contains_string(seen, id.as_str());
        if fresh {
            let fc = chars_of(f);
            let mut line: Vec<char> = Vec::new();
            push_str(&mut line, "  ");
            push_str(&mut line, id.as_str());
            push_str(&mut line, " [label=\"");
            push_escaped(&mut line, &fc);
            push_str(&mut line, "\", shape=\"ellipse\", fillcolor=\"");
            if input {
                push_str(&mut line, "lightgreen");
            } else {
                push_str(&mut line, "lightyellow");
            }
            push_str(&mut line, "\"];\n");
            assert(line@ =~= file_node_line(id@, f@, input));
            push_all(dot, line.as_slice());
            let ghost sv = string_views(seen@);
            seen.push(id.clone());
            assert(string_views(seen@) =~= sv.push(id@));
        }
        let ghost mid = dot@;
        let mut edge: Vec<char> = Vec::new();
        if input {
            push_str(&mut edge, "  ");
            push_str(&mut edge, id.as_str());
            push_str(&mut edge, " -> ");
            push_str(&mut edge, task_id);
            push_str(&mut edge, " [label=\"input\", color=\"green\", style=\"dashed\"];\n");
        } else {
            push_str(&mut edge, "  ");
            push_str(&mut edge, task_id);
            push_str(&mut edge, " -> ");
            push_str(&mut edge, id.as_str());
            push_str(&mut edge, " [label=\"output\", color=\"orange\", style=\"dashed\"];\n");
        }
        assert(edge@ =~= file_edge_line(id@, task_id@, input));
        push_all(dot, edge.as_slice());
        proof {
            let node = if prev.1.contains(id@) {
                Seq::<char>::empty()
            } else {
                file_node_line(id@, fv[k as int], input)
            };
            assert(dot@ =~= old(dot)@ + (prev.0 + node + file_edge_line(id@, task_id@, input)));
        }
        k = k + 1;
    }
}


// ---------------------------------------------------------------------------
// The terminal tree.
// ---------------------------------------------------------------------------

/// No task depends on node `i`.
pub open spec fn is_leaf(nodes: Seq<TaskView>, i: nat) -> bool {
    !exists|j: int| 0 <= j < nodes.len() && (#[trigger] nodes[j]).task_deps.contains(nodes[i as int].name)
}

/// The leaves among the first `n` nodes, in index order.
pub open spec fn leaves(nodes: Seq<TaskView>, n: nat) -> Seq<nat>
    decreases n,
{
    if n == 0 {
        Seq::empty()
    } else if is_leaf(nodes, (n - 1) as nat) {
        leaves(nodes, (n - 1) as nat).push((n - 1) as nat)
    } else {
        leaves(nodes, (n - 1) as nat)
    }
}

/// `order` is the leaves sorted by name, ties in index order.
pub open spec fn sorted_leaves(nodes: Seq<TaskView>, order: Seq<nat>) -> bool {
    let ls = leaves(nodes, nodes.len());
    let keys = ls.map_values(|i: nat| nodes[i as int].name);
    exists|perm: Seq<usize>|
        is_stable_sort(keys, perm) && order.len() == ls.len() && forall|k: int|
            0 <= k < order.len() ==> #[trigger] order[k] == ls[perm[k] as int]
}

/// The nodes a task's dependencies name: for each dependency the first
/// node of that name, if there is one.
pub open spec fn kids_of(nodes: Seq<TaskView>, deps: Seq<Seq<char>>) -> Seq<nat>
    decreases deps.len(),
{
    if deps.len() == 0 {
        Seq::empty()
    } else {
        let rest = kids_of(nodes, deps.drop_last());
        match first_named(nodes, deps.last(), 0) {
            Some(i) => rest.push(i),
            None => rest,
        }
    }
}

pub open spec fn indent(depth: nat) -> Seq<char> {
    Seq::new(2 * depth, |i: int| ' ')
}

pub open spec fn connector(is_last: bool) -> Seq<char> {
    if is_last {
        "└─"@
    } else {
        "├─"@
    }
}

pub open spec fn counts(t: TaskView) -> Seq<char> {
    (if t.file_deps.len() > 0 {
        " [inputs:"@ + dec(t.file_deps.len()) + "]"@
    } else {
        Seq::empty()
    }) + (if t.output_deps.len() > 0 {
        " [outputs:"@ + dec(t.output_deps.len()) + "]"@
    } else {
        Seq::empty()
    })
}

/// A task's line in the tree, the first time it is met on a path: its
/// name, then `[inputs:N]` with N the number of its input files when it has
/// any, then `[outputs:M]` with M the number of its output files when it has
/// any.
pub proof fn tree_line_counts_the_task_files(
    nodes: Seq<TaskView>,
    t: nat,
    depth: nat,
    visited: Seq<Seq<char>>,
    is_last: bool,
)
    requires
        t < nodes.len(),
        !visited.contains(nodes[t as int].name),
        visited.len() < nodes.len(),
    ensures
        ({
            let task = nodes[t as int];
            let ins = if task.file_deps.len() > 0 {
                " [inputs:"@ + dec(task.file_deps.len()) + "]"@
            } else {
                Seq::empty()
            };
            let outs = if task.output_deps.len() > 0 {
                " [outputs:"@ + dec(task.output_deps.len()) + "]"@
            } else {
                Seq::empty()
            };
            let line = indent(depth) + connector(is_last) + seq![' '] + task.name + ins + outs + seq!['\n'];
            line.is_prefix_of(subtree(nodes, t, depth, visited, is_last))
        }),
{
    let task = nodes[t as int];
    let line = indent(depth) + connector(is_last) + seq![' '] + task.name + counts(task) + seq!['\n'];
    let rest = children(nodes, kids_of(nodes, task.task_deps), 0, depth + 1, visited.push(task.name));
    assert(subtree(nodes, t, depth, visited, is_last) == line + rest);
    assert(line.is_prefix_of(line + rest)) by {
        assert((line + rest).take(line.len() as int) =~= line);
    }
}

/// Node `t`'s line and, below it, its dependencies' subtrees one level
/// deeper; `visited` holds the names on the path from the root, and a name
/// met again on its own path is marked as a circular reference.
pub open spec fn subtree(nodes: Seq<TaskView>, t: nat, depth: nat, visited: Seq<Seq<char>>, is_last: bool) -> Seq<
    char,
>
    decreases nodes.len() - visited.len(), 0nat,
{
    let name = nodes[t as int].name;
    let head = indent(depth) + connector(is_last) + seq![' '] + name;
    if visited.contains(name) {
        head + " (circular ref)\n"@
    } else if visited.len() >= nodes.len() {
        Seq::empty()
    } else {
        head + counts(nodes[t as int]) + seq!['\n'] + children(
            nodes,
            kids_of(nodes, nodes[t as int].task_deps),
            0,
            depth + 1,
            visited.push(name),
        )
    }
}

/// The subtrees of `kids` from the `i`-th on; the last is drawn as last.
pub open spec fn children(
    nodes: Seq<TaskView>,
    kids: Seq<nat>,
    i: nat,
    depth: nat,
    visited: Seq<Seq<char>>,
) -> Seq<char>
    decreases nodes.len() - visited.len(), kids.len() - i + 1,
{
    if i >= kids.len() {
        Seq::empty()
    } else {
        subtree(nodes, kids[i as int], depth, visited, i == kids.len() - 1) + children(
            nodes,
            kids,
            i + 1,
            depth,
            visited,
        )
    }
}

/// The trees of the roots in `order` from the `k`-th on.
pub open spec fn forest(nodes: Seq<TaskView>, order: Seq<nat>, k: nat) -> Seq<char>
    decreases order.len() - k,
{
    if k >= order.len() {
        Seq::empty()
    } else {
        subtree(nodes, order[k as int], 0, Seq::empty(), k == order.len() - 1) + forest(nodes, order, k + 1)
    }
}

pub open spec fn ascii_header() -> Seq<char> {
    "┌─────────────────────────────────────┐\n"@ + "│           Otto Task DAG             │\n"@
        + "└─────────────────────────────────────┘\n\n"@
}

pub open spec fn ascii_legend() -> Seq<char> {
    "\n┌─────────────────────────────────────┐\n"@ + "│ Legend:                             │\n"@
        + "│ ├─ Task name [inputs:N] [outputs:M] │\n"@ + "│ └─ Dependencies flow top to bottom  │\n"@
        + "└─────────────────────────────────────┘\n"@
}

/// The tree text for roots in `order`.
pub open spec fn ascii_text(nodes: Seq<TaskView>, order: Seq<nat>) -> Seq<char> {
    if order.len() == 0 {
        ascii_header() + "No leaf tasks found (possible circular dependencies)\n"@
    } else {
        ascii_header() + forest(nodes, order, 0) + ascii_legend()
    }
}

pub open spec fn names_of(nodes: Seq<TaskView>) -> Seq<Seq<char>> {
    nodes.map_values(|t: TaskView| t.name)
}

/// A set of distinct node names is no bigger than the node list.
pub proof fn lemma_names_bound(names: Seq<Seq<char>>, s: Seq<Seq<char>>)
    requires
        s.no_duplicates(),
        forall|k: int| 0 <= k < s.len() ==> names.contains(#[trigger] s[k]),
    ensures
        s.len() <= names.len(),
{
    s.unique_seq_to_set();
    names.lemma_cardinality_of_set();
    vstd::seq_lib::seq_to_set_is_finite(names);
    assert(s.to_set().subset_of(names.to_set())) by {
        assert forall|x: Seq<char>| s.to_set().contains(x) implies names.to_set().contains(x) by {
            assert(s.contains(x));
            let k = choose|k: int| 0 <= k < s.len() && s[k] == x;
            assert(names.contains(s[k]));
        }
    }
    vstd::set_lib::lemma_len_subset(s.to_set(), names.to_set());
}

fn push_spaces(out: &mut Vec<char>, n: usize)
    requires
        n <= usize::MAX / 2,
    ensures
        final(out)@ == old(out)@ + indent(n as nat),
{
    let mut k: usize = 0;
    while k < 2 * n
        invariant
            k <= 2 * n,
            n <= usize::MAX / 2,
            out@ == old(out)@ + Seq::new(k as nat, |i: int| ' '),
        decreases 2 * n - k,
    {
        out.push(' ');
        k = k + 1;
        assert(out@ =~= old(out)@ + Seq::new(k as nat, |i: int| ' '));
    }
}

fn kids_exec(nodes: &Vec<Task>, deps: &Vec<String>) -> (r: Vec<usize>)
    ensures
        r@.map_values(|i: usize| i as nat) == kids_of(node_views(nodes@), string_views(deps@)),
        forall|k: int| 0 <= k < r.len() ==> #[trigger] r@[k] < nodes.len(),
{
    let ghost nv = node_views(nodes@);
    let ghost dv = string_views(deps@);
    let mut out: Vec<usize> = Vec::new();
    let mut k: usize = 0;
    while k < deps.len()
        invariant
            k <= deps.len(),
            nv == node_views(nodes@),
            dv == string_views(deps@),
            out@.map_values(|i: usize| i as nat) == kids_of(nv, dv.take(k as int)),
            forall|m: int| 0 <= m < out.len() ==> #[trigger] out@[m] < nodes.len(),
        decreases deps.len() - k,
    {
        assert(dv.take(k + 1).drop_last() =~= dv.take(k as int));
        assert(dv.take(k + 1).last() == deps@[k as int]@);
        let ghost before = out@.map_values(|i: usize| i as nat);
        match first_named_exec(nodes, deps[k].as_str()) {
            Some(i) => {
                out.push(i);
                assert(out@.map_values(|i: usize| i as nat) =~= before.push(i as nat));
            },
            None => {},
        }
        k = k + 1;
    }
    assert(dv.take(k as int) =~= dv);
    out
}

fn push_tree_head(out: &mut Vec<char>, name: &str, depth: usize, is_last: bool)
    requires
        depth <= usize::MAX / 2,
    ensures
        final(out)@ == old(out)@ + indent(depth as nat) + connector(is_last) + seq![' '] + name@,
{
    push_spaces(out, depth);
    if is_last {
        push_str(out, "└─");
    } else {
        push_str(out, "├─");
    }
    out.push(' ');
    push_str(out, name);
    assert(out@ =~= old(out)@ + indent(depth as nat) + connector(is_last) + seq![' '] + name@);
}

fn push_counts(out: &mut Vec<char>, task: &Task)
    ensures
        final(out)@ == old(out)@ + counts(task@),
{
    let ghost start = out@;
    if task.file_deps.len() > 0 {
        push_str(out, " [inputs:");
        push_dec(out, task.file_deps.len() as u64);
        push_str(out, "]");
    }
    let ghost mid = out@;
    if task.output_deps.len() > 0 {
        push_str(out, " [outputs:");
        push_dec(out, task.output_deps.len() as u64);
        push_str(out, "]");
    }
    assert(out@ =~= old(out)@ + counts(task@));
}

#[verifier::rlimit(40)]
fn render_subtree(
    out: &mut Vec<char>,
    nodes: &Vec<Task>,
    t: usize,
    depth: usize,
    visited: &mut Vec<String>,
    is_last: bool,
)
    requires
        t < nodes.len(),
        depth == old(visited)@.len(),
        old(visited)@.len() <= nodes.len(),
        nodes.len() <= usize::MAX / 4,
        string_views(old(visited)@).no_duplicates(),
        forall|k: int|
            0 <= k < old(visited)@.len() ==> names_of(node_views(nodes@)).contains(
                #[trigger] string_views(old(visited)@)[k],
            ),
    ensures
        final(out)@ == old(out)@ + subtree(
            node_views(nodes@),
            t as nat,
            depth as nat,
            string_views(old(visited)@),
            is_last,
        ),
        string_views(final(visited)@) == string_views(old(visited)@),
    decreases nodes.len() - old(visited)@.len(),
{
    let ghost nv = node_views(nodes@);
    let ghost v0 = string_views(visited@);
    let task = &nodes[t];
    assert(nv[t as int] == task@);
    let name = task.name.as_str();
    let ghost head_text = indent(depth as nat) + connector(is_last) + seq![' '] + name@;
    push_tree_head(out, name, depth, is_last);
    if crate::text::contains_string(visited, name) {
        push_str(out, " (circular ref)\n");
        assert(subtree(nv, t as nat, depth as nat, v0, is_last) == head_text + " (circular ref)\n"@);
        assert(out@ =~= old(out)@ + subtree(nv, t as nat, depth as nat, v0, is_last));
        return;
    }
    proof {
        assert(names_of(nv)[t as int] == name@);
        assert(names_of(nv).contains(name@));
        let grown = v0.push(name@);
        assert forall|k: int| 0 <= k < grown.len() implies names_of(nv).contains(#[trigger] grown[k]) by {
            if k < v0.len() {
                assert(grown[k] == v0[k]);
            }
        }
        assert(grown.no_duplicates());
        lemma_names_bound(names_of(nv), grown);
    }
    push_counts(out, task);
    out.push('\n');
    let ghost head = out@;
    let kids = kids_exec(nodes, &task.task_deps);
    let ghost kv = kids@.map_values(|i: usize| i as nat);
    visited.push(task.name.clone());
    let ghost v1 = string_views(visited@);
    assert(v1 =~= v0.push(name@));
    let mut i: usize = 0;
    while i < kids.len()
        invariant
            i <= kids.len(),
            nv == node_views(nodes@),
            kv == kids@.map_values(|i: usize| i as nat),
            forall|k: int| 0 <= k < kids.len() ==> #[trigger] kids@[k] < nodes.len(),
            string_views(visited@) == v1,
            v1.no_duplicates(),
            v1.len() <= nodes.len(),
            depth + 1 == v1.len(),
            depth == old(visited)@.len(),
            visited@.len() == v1.len(),
            nodes.len() <= usize::MAX / 4,
            forall|k: int| 0 <= k < v1.len() ==> names_of(nv).contains(#[trigger] v1[k]),
            head + children(nv, kv, 0, (depth + 1) as nat, v1) == out@ + children(
                nv,
                kv,
                i as nat,
                (depth + 1) as nat,
                v1,
            ),
        decreases kids.len() - i,
    {
        assert(kv[i as int] == kids@[i as int] as nat);
        render_subtree(out, nodes, kids[i], depth + 1, visited, i == kids.len() - 1);
        i = i + 1;
    }
    let ghost before_pop = visited@;
    visited.pop();
    assert(visited@ =~= before_pop.drop_last());
    assert(string_views(visited@) =~= string_views(before_pop).drop_last());
    assert(v1.drop_last() =~= v0);
    assert(string_views(visited@) =~= v0);
    proof {
        assert(subtree(nv, t as nat, depth as nat, v0, is_last) == head_text + counts(nv[t as int])
            + seq!['\n'] + children(nv, kv, 0, (depth + 1) as nat, v1));
        assert(out@ =~= old(out)@ + subtree(nv, t as nat, depth as nat, v0, is_last));
    }
}

impl DagVisualizer {
    /// The graph of `nodes` as a tree for the terminal: each task nothing depends on,
    /// by name, with its dependencies below it.
    pub fn ascii_of_nodes(&self, nodes: &Vec<Task>) -> (r: Result<String, String>)
        requires
            nodes.len() <= usize::MAX / 4,
        ensures
            r matches Ok(text) && exists|order: Seq<nat>|
                #[trigger] sorted_leaves(node_views(nodes@), order) && text@ == ascii_text(
                    node_views(nodes@),
                    order,
                ),
    {
        let ghost nv = node_views(nodes@);
        let mut out: Vec<char> = Vec::new();
        push_str(&mut out, "┌─────────────────────────────────────┐\n");
        push_str(&mut out, "│           Otto Task DAG             │\n");
        push_str(&mut out, "└─────────────────────────────────────┘\n\n");
        assert(out@ =~= ascii_header());
        let ls = leaf_indices(nodes);
        let ghost lv = ls@.map_values(|i: usize| i as nat);
        let mut keys: Vec<Vec<char>> = Vec::new();
        let mut k: usize = 0;
        while k < ls.len()
            invariant
                k <= ls.len(),
                nv == node_views(nodes@),
                lv == ls@.map_values(|i: usize| i as nat),
                forall|m: int| 0 <= m < ls.len() ==> #[trigger] ls@[m] < nodes.len(),
                keys.len() == k,
                forall|m: int| 0 <= m < k ==> #[trigger] keys@[m]@ == nv[ls@[m] as int].name,
            decreases ls.len() - k,
        {
            assert(nv[ls@[k as int] as int] == nodes@[ls@[k as int] as int]@);
            keys.push(chars_of(nodes[ls[k]].name.as_str()));
            k = k + 1;
        }
        let ghost keyv = lv.map_values(|i: nat| nv[i as int].name);
        assert(keys@.map_values(|x: Vec<char>| x@) =~= keyv);
        let perm = stable_sort_indices(&keys);
        let mut order: Vec<usize> = Vec::new();
        let mut j: usize = 0;
        while j < perm.len()
            invariant
                j <= perm.len(),
                is_stable_sort(keyv, perm@),
                keyv.len() == ls.len(),
                lv == ls@.map_values(|i: usize| i as nat),
                forall|m: int| 0 <= m < ls.len() ==> #[trigger] ls@[m] < nodes.len(),
                order.len() == j,
                forall|m: int| 0 <= m < j ==> #[trigger] order@[m] == ls@[perm@[m] as int],
                forall|m: int| 0 <= m < j ==> #[trigger] order@[m] < nodes.len(),
            decreases perm.len() - j,
        {
            order.push(ls[perm[j]]);
            j = j + 1;
        }
        let ghost ov = order@.map_values(|i: usize| i as nat);
        assert(sorted_leaves(nv, ov)) by {
            assert forall|m: int| 0 <= m < ov.len() implies #[trigger] ov[m] == lv[perm@[m] as int] by {
                assert(ov[m] == order@[m] as nat);
            }
        }
        if order.len() == 0 {
            push_str(&mut out, "No leaf tasks found (possible circular dependencies)\n");
            assert(out@ =~= ascii_text(nv, ov));
            return Ok(string_of(out.as_slice()));
        }
        let ghost head = out@;
        let mut visited: Vec<String> = Vec::new();
        let mut i: usize = 0;
        while i < order.len()
            invariant
                i <= order.len(),
                nv == node_views(nodes@),
                nodes.len() <= usize::MAX / 4,
                ov == order@.map_values(|i: usize| i as nat),
                forall|m: int| 0 <= m < order.len() ==> #[trigger] order@[m] < nodes.len(),
                visited@.len() == 0,
                head + forest(nv, ov, 0) == out@ + forest(nv, ov, i as nat),
            decreases order.len() - i,
        {
            assert(ov[i as int] == order@[i as int] as nat);
            assert(string_views(visited@) =~= Seq::<Seq<char>>::empty());
            render_subtree(&mut out, nodes, order[i], 0, &mut visited, i == order.len() - 1);
            assert(visited@.len() == 0);
            i = i + 1;
        }
        push_str(&mut out, "\n┌─────────────────────────────────────┐\n");
        push_str(&mut out, "│ Legend:                             │\n");
        push_str(&mut out, "│ ├─ Task name [inputs:N] [outputs:M] │\n");
        push_str(&mut out, "│ └─ Dependencies flow top to bottom  │\n");
        push_str(&mut out, "└─────────────────────────────────────┘\n");
        assert(out@ =~= ascii_text(nv, ov));
        Ok(string_of(out.as_slice()))
    }
}

/// Whether no node's dependencies name node `i`.
fn leaf_check(nodes: &Vec<Task>, i: usize) -> (r: bool)
    requires
        i < nodes.len(),
    ensures
        r == is_leaf(node_views(nodes@), i as nat),
{
    let ghost nv = node_views(nodes@);
    let name = nodes[i].name.as_str();
    assert(nv[i as int].name == name@);
    let mut j: usize = 0;
    while j < nodes.len()
        invariant
            j <= nodes.len(),
            nv == node_views(nodes@),
            nv[i as int].name == name@,
            forall|m: int| 0 <= m < j ==> !(#[trigger] nv[m]).task_deps.contains(name@),
        decreases nodes.len() - j,
    {
        assert(nv[j as int] == nodes@[j as int]@);
        if crate::text::contains_string(&nodes[j].task_deps, name) {
            return false;
        }
        j = j + 1;
    }
    true
}

fn leaf_indices(nodes: &Vec<Task>) -> (r: Vec<usize>)
    ensures
        r@.map_values(|i: usize| i as nat) == leaves(node_views(nodes@), nodes.len() as nat),
        forall|m: int| 0 <= m < r.len() ==> #[trigger] r@[m] < nodes.len(),
{
    let ghost nv = node_views(nodes@);
    let mut out: Vec<usize> = Vec::new();
    let mut i: usize = 0;
    while i < nodes.len()
        invariant
            i <= nodes.len(),
            nv == node_views(nodes@),
            out@.map_values(|i: usize| i as nat) == leaves(nv, i as nat),
            forall|m: int| 0 <= m < out.len() ==> #[trigger] out@[m] < nodes.len(),
        decreases nodes.len() - i,
    {
        let ghost before = out@.map_values(|i: usize| i as nat);
        if leaf_check(nodes, i) {
            out.push(i);
            assert(out@.map_values(|i: usize| i as nat) =~= before.push(i as nat));
        }
        i = i + 1;
    }
    out
}


/// The edges of a graph over `nodes`, for the first `n` nodes: for each
/// node in order and each of its dependencies that names a node, an edge
/// from the last node of that name to it.
pub open spec fn dag_edges(nodes: Seq<TaskView>, n: nat) -> Seq<(nat, nat)>
    decreases n,
{
    if n == 0 {
        Seq::empty()
    } else {
        dag_edges(nodes, (n - 1) as nat) + deps_edges(nodes, (n - 1) as nat, nodes[n - 1].task_deps, nodes[n
            - 1].task_deps.len())
    }
}

/// The edges into node `target` from its first `k` dependencies.
pub open spec fn deps_edges(nodes: Seq<TaskView>, target: nat, deps: Seq<Seq<char>>, k: nat) -> Seq<(nat, nat)>
    decreases k,
{
    if k == 0 || k > deps.len() {
        Seq::empty()
    } else {
        deps_edges(nodes, target, deps, (k - 1) as nat) + match last_named(nodes, deps[k - 1], nodes.len()) {
            Some(d) => seq![(d, target)],
            None => Seq::empty(),
        }
    }
}

pub open spec fn edge_views(e: Seq<(usize, usize)>) -> Seq<(nat, nat)> {
    e.map_values(|p: (usize, usize)| (p.0 as nat, p.1 as nat))
}

impl DagVisualizer {
    /// How a graph is built from tasks: the tasks in stable name order, and
    /// the dependency edges between them, each edge from a dependency to
    /// the task that needs it.
    pub fn plan_dag(tasks: Vec<Task>) -> (r: (Vec<Task>, Vec<(usize, usize)>))
        ensures
            exists|perm: Seq<usize>|
                #[trigger] is_stable_sort(names_of(node_views(tasks@)), perm) && r.0@.len()
                    == tasks@.len() && forall|k: int|
                    0 <= k < r.0@.len() ==> (#[trigger] r.0@[k])@ == tasks@[perm[k] as int]@,
            edge_views(r.1@) == dag_edges(node_views(r.0@), r.0@.len() as nat),
    {
        let ghost tv = node_views(tasks@);
        let ghost keys = names_of(tv);
        let mut ks: Vec<Vec<char>> = Vec::new();
        let mut k: usize = 0;
        while k < tasks.len()
            invariant
                k <= tasks.len(),
                tv == node_views(tasks@),
                keys == names_of(tv),
                ks.len() == k,
                forall|m: int| 0 <= m < k ==> #[trigger] ks@[m]@ == keys[m],
            decreases tasks.len() - k,
        {
            assert(keys[k as int] == tasks@[k as int].name@);
            ks.push(chars_of(tasks[k].name.as_str()));
            k = k + 1;
        }
        assert(ks@.map_values(|x: Vec<char>| x@) =~= keys);
        let perm = stable_sort_indices(&ks);
        let mut nodes: Vec<Task> = Vec::new();
        let mut j: usize = 0;
        while j < perm.len()
            invariant
                j <= perm.len(),
                is_stable_sort(keys, perm@),
                keys.len() == tasks.len(),
                nodes.len() == j,
                forall|m: int| 0 <= m < j ==> (#[trigger] nodes@[m])@ == tasks@[perm@[m] as int]@,
            decreases perm.len() - j,
        {
            nodes.push(tasks[perm[j]].clone_task());
            j = j + 1;
        }
        let ghost nv = node_views(nodes@);
        let mut edges: Vec<(usize, usize)> = Vec::new();
        let mut i: usize = 0;
        while i < nodes.len()
            invariant
                i <= nodes.len(),
                nv == node_views(nodes@),
                edge_views(edges@) == dag_edges(nv, i as nat),
            decreases nodes.len() - i,
        {
            let t = &nodes[i];
            assert(nv[i as int] == t@);
            let ghost dv = t@.task_deps;
            let ghost start = edge_views(edges@);
            let mut d: usize = 0;
            while d < t.task_deps.len()
                invariant
                    d <= t.task_deps.len(),
                    i < nodes.len(),
                    nv == node_views(nodes@),
                    dv == string_views(t.task_deps@),
                    edge_views(edges@) == start + deps_edges(nv, i as nat, dv, d as nat),
                decreases t.task_deps.len() - d,
            {
                assert(dv[d as int] == t.task_deps@[d as int]@);
                let ghost before = edge_views(edges@);
                match last_named_exec(&nodes, t.task_deps[d].as_str()) {
                    Some(src) => {
                        edges.push((src, i));
                        assert(edge_views(edges@) =~= before + seq![(src as nat, i as nat)]);
                    },
                    None => {
                        assert(edge_views(edges@) =~= before + Seq::<(nat, nat)>::empty());
                    },
                }
                d = d + 1;
            }
            i = i + 1;
        }
        (nodes, edges)
    }
}


/// The format a graph command names: `ascii`, `dot`, `svg`, `png` or
/// `pdf`; anything else draws ASCII.
pub open spec fn format_named(name: Seq<char>) -> GraphFormat {
    if name == "dot"@ {
        GraphFormat::Dot
    } else if name == "svg"@ {
        GraphFormat::Svg
    } else if name == "png"@ {
        GraphFormat::Png
    } else if name == "pdf"@ {
        GraphFormat::Pdf
    } else {
        GraphFormat::Ascii
    }
}

impl GraphFormat {
    /// The format `name` asks for, ASCII when it names none.
    pub fn from_name(name: &str) -> (r: GraphFormat)
        ensures
            r == format_named(name@),
    {
        proof {
            reveal_strlit("dot");
            reveal_strlit("svg");
            reveal_strlit("png");
            reveal_strlit("pdf");
        }
        if str_eq(name, "dot") {
            GraphFormat::Dot
        } else if str_eq(name, "svg") {
            GraphFormat::Svg
        } else if str_eq(name, "png") {
            GraphFormat::Png
        } else if str_eq(name, "pdf") {
            GraphFormat::Pdf
        } else {
            GraphFormat::Ascii
        }
    }
}

/// The extension `Path::extension` finds in a path.
pub uninterp spec fn extension_of(path: Seq<char>) -> Option<Seq<char>>;

/// Calls `Path::extension` on `path`: the part of the file name after its
/// last `.`, when the name has one that does not start it.
#[verifier::external_body]
fn path_extension(path: &str) -> (r: Option<String>)
    ensures
        match r {
            Some(e) => extension_of(path@) == Some(e@),
            None => extension_of(path@) is None,
        },
{
    std::path::Path::new(path).extension().and_then(|e| e.to_str()).map(|e| e.to_string())
}

/// The Graphviz output format for an image: the one asked for, or, for
/// `Auto`, the one the output file's extension names (`svg` when it names
/// none). DOT and ASCII are not image formats.
pub open spec fn image_format_of(format: GraphFormat, extension: Option<Seq<char>>) -> Result<Seq<char>, Seq<char>> {
    match format {
        GraphFormat::Svg => Ok("svg"@),
        GraphFormat::Png => Ok("png"@),
        GraphFormat::Pdf => Ok("pdf"@),
        GraphFormat::Auto => match extension {
            Some(e) => if e == "png"@ {
                Ok("png"@)
            } else if e == "pdf"@ {
                Ok("pdf"@)
            } else {
                Ok("svg"@)
            },
            None => Ok("svg"@),
        },
        _ => Err("Invalid format for image generation"@),
    }
}

/// The image format for `format` and the output file's extension.
pub fn image_format(format: GraphFormat, extension: Option<&str>) -> (r: Result<String, String>)
    ensures
        match image_format_of(format, match extension {
            Some(e) => Some(e@),
            None => None,
        }) {
            Ok(f) => r matches Ok(g) && g@ == f,
            Err(m) => r matches Err(n) && n@ == m,
        },
{
    proof {
        reveal_strlit("svg");
        reveal_strlit("png");
        reveal_strlit("pdf");
    }
    let name = match format {
        GraphFormat::Svg => "svg",
        GraphFormat::Png => "png",
        GraphFormat::Pdf => "pdf",
        GraphFormat::Auto => match extension {
            Some(e) => if str_eq(e, "png") {
                "png"
            } else if str_eq(e, "pdf") {
                "pdf"
            } else {
                "svg"
            },
            None => "svg",
        },
        _ => {
            return Err(string_of(chars_of("Invalid format for image generation").as_slice()));
        },
    };
    Ok(string_of(chars_of(name).as_slice()))
}

impl DagVisualizer {
    /// The image format and the file it goes to: the output path when one
    /// is set, `otto_graph.<format>` (in the working directory) otherwise.
    pub fn determine_output_format(&self) -> (r: Result<(String, String), String>)
        ensures
            match image_format_of(self.options.format, match self.options.output_path {
                Some(p) => extension_of(p@),
                None => None,
            }) {
                Ok(f) => r matches Ok(pair) && pair.0@ == f && pair.1@ == match self.options.output_path {
                    Some(p) => p@,
                    None => "otto_graph."@ + f,
                },
                Err(m) => r matches Err(n) && n@ == m,
            },
    {
        let ext = match &self.options.output_path {
            Some(p) => path_extension(p.as_str()),
            None => None,
        };
        let format = match &ext {
            Some(e) => image_format(self.options.format, Some(e.as_str())),
            None => image_format(self.options.format, None),
        }?;
        let file = match &self.options.output_path {
            Some(p) => string_of(chars_of(p.as_str()).as_slice()),
            None => {
                let mut v: Vec<char> = Vec::new();
                push_str(&mut v, "otto_graph.");
                push_str(&mut v, format.as_str());
                string_of(v.as_slice())
            },
        };
        Ok((format, file))
    }
}

} // verus!
