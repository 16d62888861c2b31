//! The Rust source files generated for a compiled graph: identifier enums,
//! source events, source shapes and the output bindings.
use vstd::prelude::*;
use crate::dd::{GraphOperatorKind, SourceBinding, StaticGraph};
use crate::text::{
    char_is_alnum, char_to_upper, chars_of, debug_str, debug_text, is_alnum, push_char, push_str,
    string_eq_str, upper,
};

verus! {

/// Lines joined by a separator.
pub open spec fn join_lines(items: Seq<Seq<char>>, sep: Seq<char>) -> Seq<char>
    decreases items.len(),
{
    if items.len() == 0 {
        Seq::empty()
    } else if items.len() == 1 {
        items[0]
    } else {
        join_lines(items.drop_last(), sep) + sep + items[items.len() - 1]
    }
}

/// Appends the next item of a joined list: the separator comes first unless
/// the item is the first one.
proof fn lemma_join_push(items: Seq<Seq<char>>, sep: Seq<char>, x: Seq<char>)
    ensures
        join_lines(items.push(x), sep) == if items.len() == 0 {
            x
        } else {
            join_lines(items, sep) + sep + x
        },
{
    assert(items.push(x).drop_last() =~= items);
}

/// The letters and digits of a text, each run starting with a capital, and
/// whether the next letter starts a run.
pub open spec fn camel_state(s: Seq<char>) -> (Seq<char>, bool)
    decreases s.len(),
{
    if s.len() == 0 {
        (Seq::empty(), true)
    } else {
        let (r, starts) = camel_state(s.drop_last());
        let c = s[s.len() - 1];
        if is_alnum(c) {
            if starts {
                (r.push(upper(c)), false)
            } else {
                (r.push(c), false)
            }
        } else {
            (r, true)
        }
    }
}

/// A Rust enum variant made of a name: its letters and digits, each run
/// after a separator capitalised; `Generated` when nothing is left.
pub open spec fn variant_name(s: Seq<char>) -> Seq<char> {
    if camel_state(s).0.len() == 0 {
        "Generated"@
    } else {
        camel_state(s).0
    }
}

proof fn lemma_camel_alnum(s: Seq<char>)
    ensures
        forall|i: int| 0 <= i < camel_state(s).0.len() ==> is_alnum(#[trigger] camel_state(s).0[i]),
    decreases s.len(),
{
    if s.len() > 0 {
        lemma_camel_alnum(s.drop_last());
        let c = s[s.len() - 1];
        let r = camel_state(s.drop_last()).0;
        if is_alnum(c) {
            assert(is_alnum(upper(c))) by {
                if 'a' <= c <= 'z' {
                    let v = (c as u32) - 32;
                    assert(65 <= v <= 90);
                    assert((v as char) as u32 == v);
                }
            }
            assert forall|i: int| 0 <= i < camel_state(s).0.len() implies is_alnum(
                #[trigger] camel_state(s).0[i],
            ) by {
                if i < r.len() {
                    assert(camel_state(s).0[i] == r[i]);
                }
            }
        }
    }
}

/// Every generated variant name is a nonempty run of ASCII letters and
/// digits.
pub proof fn lemma_variant_name_alnum(s: Seq<char>)
    ensures
        variant_name(s).len() > 0,
        forall|i: int| 0 <= i < variant_name(s).len() ==> is_alnum(#[trigger] variant_name(s)[i]),
{
    lemma_camel_alnum(s);
    if camel_state(s).0.len() == 0 {
        reveal_strlit("Generated");
    }
}

/// The enum variant for a name.
pub fn sanitize_variant(value: &str) -> (r: String)
    ensures
        r@ == variant_name(value@),
{
    let v = chars_of(value);
    let mut result = String::new();
    let mut starts = true;
    let mut any = false;
    let mut i: usize = 0;
    while i < v.len()
        invariant
            i <= v@.len(),
            (result@, starts) == camel_state(v@.take(i as int)),
            any == (result@.len() > 0),
        decreases v@.len() - i,
    {
        let ch = v[i];
        assert(v@.take(i + 1).drop_last() =~= v@.take(i as int));
        if char_is_alnum(ch) {
            if starts {
                push_char(&mut result, char_to_upper(ch));
                starts = false;
            } else {
                push_char(&mut result, ch);
            }
            any = true;
        } else {
            starts = true;
        }
        i = i + 1;
    }
    assert(v@.take(v@.len() as int) =~= v@);
    if !any {
        "Generated".to_owned()
    } else {
        result
    }
}

/// The line declaring one enum variant.
pub open spec fn variant_line(name: Seq<char>) -> Seq<char> {
    "    "@ + variant_name(name) + ","@
}

/// The variant lines of the graph's nodes.
pub open spec fn node_lines(g: StaticGraph) -> Seq<Seq<char>> {
    Seq::new(g.nodes@.len(), |i: int| variant_line(g.nodes@[i].node.0@))
}

/// The variant lines of the graph's sources.
pub open spec fn source_lines(g: StaticGraph) -> Seq<Seq<char>> {
    Seq::new(g.source_bindings@.len(), |i: int| variant_line(g.source_bindings@[i].source_id.0@))
}

/// Joins the generated lines, one per call of `line`.
fn join_generated(lines: &Vec<String>) -> (r: String)
    ensures
        r@ == join_lines(lines@.map_values(|l: String| l@), "\n"@),
{
    let ghost s = lines@.map_values(|l: String| l@);
    let mut out = String::new();
    let mut i: usize = 0;
    while i < lines.len()
        invariant
            s == lines@.map_values(|l: String| l@),
            i <= lines@.len(),
            out@ == join_lines(s.take(i as int), "\n"@),
        decreases lines@.len() - i,
    {
        proof {
            lemma_join_push(s.take(i as int), "\n"@, s[i as int]);
            assert(s.take(i + 1) =~= s.take(i as int).push(s[i as int]));
            if i == 0 {
                assert(Seq::<char>::empty() + lines@[0]@ =~= lines@[0]@);
            }
        }
        if i > 0 {
            push_str(&mut out, "\n");
        }
        push_str(&mut out, lines[i].as_str());
        i = i + 1;
    }
    assert(s.take(lines@.len() as int) =~= s);
    out
}

/// The line of one enum variant.
fn variant_line_exec(name: &str) -> (r: String)
    ensures
        r@ == variant_line(name@),
{
    let mut r = "    ".to_owned();
    let v = sanitize_variant(name);
    push_str(&mut r, v.as_str());
    push_str(&mut r, ",");
    r
}

/// The head of the generated identifier module, up to the node variants.
pub open spec fn ids_head() -> Seq<char> {
    "use serde::{Deserialize, Serialize};\n\n#[derive(Clone, Copy, Debug, PartialEq, Eq, PartialOrd, Ord, Hash, Serialize, Deserialize)]\npub enum NodeId {\n"@
}

/// Between the node variants and the source variants.
pub open spec fn ids_middle() -> Seq<char> {
    "\n}\n\n#[derive(Clone, Copy, Debug, PartialEq, Eq, PartialOrd, Ord, Hash, Serialize, Deserialize)]\npub enum SourceId {\n"@
}

/// After the source variants: the storage keys.
pub open spec fn ids_tail() -> Seq<char> {
    "\n}\n\n#[derive(Clone, Copy, Debug, PartialEq, Eq, PartialOrd, Ord, Hash, Serialize, Deserialize)]\npub enum StorageKey {\n    SemanticState,\n}\n"@
}

/// The generated identifier module: one enum variant per node and per
/// source.
pub fn generated_ids_rs(graph: &StaticGraph) -> (r: String)
    ensures
        r@ == ids_head() + join_lines(node_lines(*graph), "\n"@) + ids_middle() + join_lines(
            source_lines(*graph),
            "\n"@,
        ) + ids_tail(),
{
    let mut nodes: Vec<String> = Vec::new();
    let mut i: usize = 0;
    while i < graph.nodes.len()
        invariant
            i <= graph.nodes@.len(),
            nodes@.map_values(|l: String| l@) == node_lines(*graph).take(i as int),
        decreases graph.nodes@.len() - i,
    {
        let line = variant_line_exec(graph.nodes[i].node.0.as_str());
        let ghost before = nodes@;
        nodes.push(line);
        assert(nodes@.map_values(|l: String| l@) =~= before.map_values(|l: String| l@).push(line@));
        assert(node_lines(*graph).take(i + 1) =~= node_lines(*graph).take(i as int).push(line@));
        i = i + 1;
        assert(nodes@.map_values(|l: String| l@) =~= node_lines(*graph).take(i as int));
    }
    assert(node_lines(*graph).take(i as int) =~= node_lines(*graph));
    let mut sources: Vec<String> = Vec::new();
    let mut j: usize = 0;
    while j < graph.source_bindings.len()
        invariant
            j <= graph.source_bindings@.len(),
            sources@.map_values(|l: String| l@) == source_lines(*graph).take(j as int),
        decreases graph.source_bindings@.len() - j,
    {
        let line = variant_line_exec(graph.source_bindings[j].source_id.0.as_str());
        let ghost before = sources@;
        sources.push(line);
        assert(sources@.map_values(|l: String| l@) =~= before.map_values(|l: String| l@).push(line@));
        assert(source_lines(*graph).take(j + 1) =~= source_lines(*graph).take(j as int).push(line@));
        j = j + 1;
        assert(sources@.map_values(|l: String| l@) =~= source_lines(*graph).take(j as int));
    }
    assert(source_lines(*graph).take(j as int) =~= source_lines(*graph));
    let mut r = "use serde::{Deserialize, Serialize};\n\n#[derive(Clone, Copy, Debug, PartialEq, Eq, PartialOrd, Ord, Hash, Serialize, Deserialize)]\npub enum NodeId {\n".to_owned();
    let a = join_generated(&nodes);
    push_str(&mut r, a.as_str());
    push_str(&mut r, "\n}\n\n#[derive(Clone, Copy, Debug, PartialEq, Eq, PartialOrd, Ord, Hash, Serialize, Deserialize)]\npub enum SourceId {\n");
    let b = join_generated(&sources);
    push_str(&mut r, b.as_str());
    push_str(&mut r, "\n}\n\n#[derive(Clone, Copy, Debug, PartialEq, Eq, PartialOrd, Ord, Hash, Serialize, Deserialize)]\npub enum StorageKey {\n    SemanticState,\n}\n");
    r
}

/// The variant of a source event: texts and tags carry their payload,
/// dynamic sources their owner and generation.
pub open spec fn source_event_line(b: SourceBinding) -> Seq<char> {
    let v = variant_name(b.source_id.0@);
    if b.shape@ == "Text"@ {
        "    "@ + v + " { text: String },"@
    } else if b.shape@ == "TagSet"@ {
        "    "@ + v + " { tag: String },"@
    } else if b.dynamic {
        "    "@ + v + " { owner: String, generation: u32 },"@
    } else {
        "    "@ + v + ","@
    }
}

/// The generated source-event enum's lines.
pub open spec fn source_event_lines(g: StaticGraph) -> Seq<Seq<char>> {
    Seq::new(g.source_bindings@.len(), |i: int| source_event_line(g.source_bindings@[i]))
}

fn source_event_line_exec(b: &SourceBinding) -> (r: String)
    ensures
        r@ == source_event_line(*b),
{
    let v = sanitize_variant(b.source_id.0.as_str());
    let mut r = "    ".to_owned();
    push_str(&mut r, v.as_str());
    if string_eq_str(&b.shape, "Text") {
        push_str(&mut r, " { text: String },");
    } else if string_eq_str(&b.shape, "TagSet") {
        push_str(&mut r, " { tag: String },");
    } else if b.dynamic {
        push_str(&mut r, " { owner: String, generation: u32 },");
    } else {
        push_str(&mut r, ",");
    }
    r
}

/// The generated module of source events: one variant per source.
pub fn generated_source_events_rs(graph: &StaticGraph) -> (r: String)
    ensures
        r@ == "use serde::{Deserialize, Serialize};\n\n#[derive(Clone, Debug, Serialize, Deserialize)]\npub enum GeneratedSourceEvent {\n"@
            + join_lines(source_event_lines(*graph), "\n"@) + "\n}\n"@,
{
    let mut lines: Vec<String> = Vec::new();
    let mut j: usize = 0;
    while j < graph.source_bindings.len()
        invariant
            j <= graph.source_bindings@.len(),
            lines@.map_values(|l: String| l@) == source_event_lines(*graph).take(j as int),
        decreases graph.source_bindings@.len() - j,
    {
        let line = source_event_line_exec(&graph.source_bindings[j]);
        let ghost before = lines@;
        lines.push(line);
        assert(lines@.map_values(|l: String| l@) =~= before.map_values(|l: String| l@).push(line@));
        assert(source_event_lines(*graph).take(j + 1) =~= source_event_lines(*graph).take(j as int).push(line@));
        j = j + 1;
    }
    assert(source_event_lines(*graph).take(j as int) =~= source_event_lines(*graph));
    let mut r = "use serde::{Deserialize, Serialize};\n\n#[derive(Clone, Debug, Serialize, Deserialize)]\npub enum GeneratedSourceEvent {\n".to_owned();
    let body = join_generated(&lines);
    push_str(&mut r, body.as_str());
    push_str(&mut r, "\n}\n");
    r
}

/// A source's path and shape, as a quoted pair.
pub open spec fn shape_line(b: SourceBinding) -> Seq<char> {
    "    ("@ + debug_text(b.path@) + ", "@ + debug_text(b.shape@) + "),"@
}

/// The generated shape table's lines.
pub open spec fn shape_lines(g: StaticGraph) -> Seq<Seq<char>> {
    Seq::new(g.source_bindings@.len(), |i: int| shape_line(g.source_bindings@[i]))
}

fn shape_line_exec(b: &SourceBinding) -> (r: String)
    ensures
        r@ == shape_line(*b),
{
    let mut r = "    (".to_owned();
    let p = debug_str(b.path.as_str());
    push_str(&mut r, p.as_str());
    push_str(&mut r, ", ");
    let s = debug_str(b.shape.as_str());
    push_str(&mut r, s.as_str());
    push_str(&mut r, "),");
    r
}

/// The generated module listing each source's path and shape.
pub fn generated_shapes_rs(graph: &StaticGraph) -> (r: String)
    ensures
        r@ == "pub fn source_shapes() -> &'static [(&'static str, &'static str)] {\n    &[\n"@
            + join_lines(shape_lines(*graph), "\n"@) + "\n    ]\n}\n"@,
{
    let mut lines: Vec<String> = Vec::new();
    let mut j: usize = 0;
    while j < graph.source_bindings.len()
        invariant
            j <= graph.source_bindings@.len(),
            lines@.map_values(|l: String| l@) == shape_lines(*graph).take(j as int),
        decreases graph.source_bindings@.len() - j,
    {
        let line = shape_line_exec(&graph.source_bindings[j]);
        let ghost before = lines@;
        lines.push(line);
        assert(lines@.map_values(|l: String| l@) =~= before.map_values(|l: String| l@).push(line@));
        assert(shape_lines(*graph).take(j + 1) =~= shape_lines(*graph).take(j as int).push(line@));
        j = j + 1;
    }
    assert(shape_lines(*graph).take(j as int) =~= shape_lines(*graph));
    let mut r = "pub fn source_shapes() -> &'static [(&'static str, &'static str)] {\n    &[\n".to_owned();
    let body = join_generated(&lines);
    push_str(&mut r, body.as_str());
    push_str(&mut r, "\n    ]\n}\n");
    r
}

/// The generated module of value types: a re-export.
pub fn generated_values_rs() -> (r: &'static str)
    ensures
        r@ == "pub use boon_dd::{BoonNumber, BoonValue, TagName};\n"@,
{
    "pub use boon_dd::{BoonNumber, BoonValue, TagName};\n"
}

/// The generated render bindings: the graph id and the render node, quoted.
pub fn generated_render_bindings_rs(graph: &StaticGraph) -> (r: String)
    ensures
        r@ == "pub fn render_root() -> &'static str { "@ + debug_text(graph.graph_id@)
            + " }\npub fn render_node() -> &'static str { "@ + debug_text(graph.render_node.0@)
            + " }\n"@,
{
    let mut r = "pub fn render_root() -> &'static str { ".to_owned();
    let a = debug_str(graph.graph_id.as_str());
    push_str(&mut r, a.as_str());
    push_str(&mut r, " }\npub fn render_node() -> &'static str { ");
    let b = debug_str(graph.render_node.0.as_str());
    push_str(&mut r, b.as_str());
    push_str(&mut r, " }\n");
    r
}

/// The generated monitor binding: the monitored node, quoted.
pub fn generated_monitor_bindings_rs(graph: &StaticGraph) -> (r: String)
    ensures
        r@ == "pub fn monitor_node() -> &'static str { "@ + debug_text(graph.monitor_node.0@)
            + " }\n"@,
{
    let mut r = "pub fn monitor_node() -> &'static str { ".to_owned();
    let a = debug_str(graph.monitor_node.0.as_str());
    push_str(&mut r, a.as_str());
    push_str(&mut r, " }\n");
    r
}

/// Whether the graph has a persistence tap among its operators.
pub open spec fn has_persist_tap(g: StaticGraph) -> bool {
    exists|i: int| 0 <= i < g.operators@.len() && g.operators@[i].kind == GraphOperatorKind::PersistTap
}

/// The generated persistence binding: whether the graph persists state.
pub fn generated_persist_bindings_rs(graph: &StaticGraph) -> (r: String)
    ensures
        r@ == "pub fn has_persistence_tap() -> bool { "@ + (if has_persist_tap(*graph) {
            "true"@
        } else {
            "false"@
        }) + " }\n"@,
{
    let mut has = false;
    let mut i: usize = 0;
    while i < graph.operators.len()
        invariant
            i <= graph.operators@.len(),
            has == exists|k: int| 0 <= k < i && graph.operators@[k].kind == GraphOperatorKind::PersistTap,
        decreases graph.operators@.len() - i,
    {
        if graph.operators[i].kind == GraphOperatorKind::PersistTap {
            has = true;
        }
        i = i + 1;
    }
    let mut r = "pub fn has_persistence_tap() -> bool { ".to_owned();
    if has {
        push_str(&mut r, "true");
    } else {
        push_str(&mut r, "false");
    }
    push_str(&mut r, " }\n");
    r
}

} // verus!
