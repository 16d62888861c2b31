//! Runtime-facing data of the dataflow graph.
use vstd::prelude::*;
use crate::strmap::StrMap;

verus! {

/// A logical timestamp: an epoch and a phase inside it.
#[derive(Clone, Copy, Debug, PartialEq, Eq, Structural, PartialOrd, Ord, Hash)]
pub struct BoonTime {
    pub epoch: u64,
    pub phase: u8,
}

impl BoonTime {
    /// Packs the time into one integer, four phases per epoch.
    pub fn encode(self) -> (r: u64)
        requires
            self.epoch * 4 + self.phase <= u64::MAX,
        ensures
            r == self.epoch * 4 + self.phase,
    {
        self.epoch * 4 + self.phase as u64
    }

    /// Unpacks an encoded time.
    pub fn decode(time: u64) -> (r: BoonTime)
        ensures
            r.epoch == time / 4,
            r.phase == time % 4,
    {
        BoonTime { epoch: time / 4, phase: (time % 4) as u8 }
    }
}

/// Decoding an encoded time gives the time back, for each of the four phases.
pub proof fn lemma_time_round_trip(epoch: u64, phase: u8)
    requires
        phase < 4,
        epoch * 4 + phase <= u64::MAX,
    ensures
        (epoch * 4 + phase) / 4 == epoch,
        (epoch * 4 + phase) % 4 == phase,
{
}

/// Encoding a decoded integer gives the integer back.
pub proof fn lemma_time_encode_decode(time: u64)
    ensures
        (time / 4) * 4 + time % 4 == time,
        time % 4 < 4,
{
}

/// Encoding keeps the order of times: by epoch, then by phase.
pub proof fn lemma_time_order(e1: u64, p1: u8, e2: u64, p2: u8)
    requires
        p1 < 4,
        p2 < 4,
    ensures
        (e1 < e2 || (e1 == e2 && p1 < p2)) <==> e1 * 4 + p1 < e2 * 4 + p2,
{
}

/// The key of the owner of a dynamic source instance.
#[derive(Clone, Debug, PartialEq, Eq, PartialOrd, Ord, Hash)]
pub struct OwnerKey(pub String);

/// A static event source.
#[derive(Clone, Debug, PartialEq, Eq, PartialOrd, Ord, Hash)]
pub struct SourceId(pub String);

/// A family of dynamic event sources.
#[derive(Clone, Debug, PartialEq, Eq, PartialOrd, Ord, Hash)]
pub struct SourceFamilyId(pub String);

/// A node of the dataflow graph.
#[derive(Clone, Debug, PartialEq, Eq, PartialOrd, Ord, Hash)]
pub struct NodeId(pub String);

/// The name of a tag value.
#[derive(Clone, Debug, PartialEq, Eq, PartialOrd, Ord, Hash)]
pub struct TagName(pub String);

/// A value observed at a node.
#[derive(Clone, Debug, PartialEq, Eq)]
pub enum MonitorRecord {
    NodeValue { epoch: u64, node: NodeId, owner: OwnerKey, value_preview: String },
}

/// A change to the rendered output.
#[derive(Clone, Debug, PartialEq, Eq)]
pub enum RenderCommand {
    PatchText { node: NodeId, text: String },
}

/// A side effect the graph asks for.
#[derive(Clone, Debug, PartialEq, Eq)]
pub enum EffectCommand {
    Requested { node: NodeId, name: String },
}

/// A request to store or load state.
#[derive(Clone, Debug, PartialEq, Eq)]
pub enum PersistenceCommand {
    SaveText { node: NodeId, value: String },
    LoadText { node: NodeId },
}

/// Everything a run of the graph emitted.
#[derive(Clone, Debug, PartialEq, Eq)]
pub struct SmokeOutput {
    pub monitor: Vec<MonitorRecord>,
    pub render: Vec<RenderCommand>,
    pub effects: Vec<EffectCommand>,
    pub persistence: Vec<PersistenceCommand>,
}

/// An event source bound into the graph.
#[derive(Clone, Debug, PartialEq, Eq)]
pub struct SourceBinding {
    pub source_id: SourceId,
    pub path: String,
    pub shape: String,
    pub dynamic: bool,
}

/// A node of the static graph.
#[derive(Clone, Debug, PartialEq, Eq)]
pub struct GraphNode {
    pub node: NodeId,
    pub kind: String,
    pub shape: String,
    pub source_span: String,
}

/// The kinds of dataflow operator.
#[derive(Clone, Copy, Debug, PartialEq, Eq, Structural)]
pub enum GraphOperatorKind {
    SourceLeaf,
    PathReference,
    Skip,
    ConstantText,
    ConstantNumber,
    Tag,
    Record,
    List,
    Pipe,
    ThenConst,
    Then,
    When,
    WhileSwitch,
    Latest,
    Hold,
    KeyedHold,
    ListAppend,
    ListRemove,
    ListMap,
    ListRetain,
    RenderSink,
    EffectSink,
    PersistTap,
    MonitorTap,
    LibraryCall,
    BinaryAdd,
}

/// An operator of the static graph.
#[derive(Clone, Debug, PartialEq, Eq)]
pub struct GraphOperator {
    pub node: NodeId,
    pub kind: GraphOperatorKind,
    pub inputs: Vec<NodeId>,
    pub output: NodeId,
    pub order: u32,
}

/// What the graph renders, and from where.
#[derive(Debug, PartialEq, Eq)]
pub struct DdRenderProgram {
    pub source: DdRenderProgramSource,
    pub operation: DdRenderOperation,
}

/// A render expression laid out as graph nodes.
#[derive(Clone, Debug, PartialEq, Eq)]
pub struct DdRenderGraph {
    pub source: DdRenderProgramSource,
    pub root: NodeId,
    pub nodes: Vec<DdRenderGraphNode>,
}

#[derive(Clone, Debug, PartialEq, Eq)]
pub struct DdRenderGraphNode {
    pub node: NodeId,
    pub operator: GraphOperatorKind,
    pub inputs: Vec<NodeId>,
    pub operation: DdRenderGraphOperation,
    pub order: u32,
}

#[derive(Clone, Debug, PartialEq, Eq)]
pub enum DdRenderGraphOperation {
    Missing,
    Path(String),
    Number(String),
    Source,
    SourceAt { target: NodeId },
    Link { target: Option<NodeId> },
    Skip,
    Tag(String),
    Text(String),
    Record(Vec<DdRenderGraphField>),
    List(Vec<NodeId>),
    Block(Vec<NodeId>),
    Latest(Vec<NodeId>),
    Call { callee: String, args: Vec<DdRenderGraphArg> },
    Constructor { callee: String, fields: Vec<DdRenderGraphField> },
    FieldAccess { base: NodeId, field: String },
    Pipe { input: NodeId, stage: NodeId },
    BinaryAdd { left: NodeId, right: NodeId },
    BinarySubtract { left: NodeId, right: NodeId },
    BinaryEqual { left: NodeId, right: NodeId },
    Then { body: Vec<NodeId> },
    Hold { binder: String, body: Vec<NodeId> },
    Match { kind: DdRenderMatchKind, arms: Vec<DdRenderGraphMatchArm> },
}

#[derive(Clone, Debug, PartialEq, Eq)]
pub struct DdRenderGraphField {
    pub name: String,
    pub value: NodeId,
}

#[derive(Clone, Debug, PartialEq, Eq)]
pub enum DdRenderGraphArg {
    Positional(NodeId),
    Named { name: String, value: NodeId },
}

#[derive(Clone, Debug, PartialEq, Eq)]
pub struct DdRenderGraphMatchArm {
    pub pattern: String,
    pub value: NodeId,
}

/// The semantic path a render reads, and the node it writes.
#[derive(Clone, Debug, PartialEq, Eq)]
pub struct DdRenderProgramSource {
    pub semantic_path: Option<String>,
    pub output_node: NodeId,
}

/// The outputs a graph offers.
#[derive(Clone, Debug, PartialEq, Eq)]
pub struct DdOutputProtocol {
    pub schema_version: String,
    pub sinks: Vec<DdOutputSink>,
}

#[derive(Clone, Debug, PartialEq, Eq)]
pub enum DdOutputSink {
    MonitorNodeValue { node: NodeId, source: DdRenderProgramSource },
    RenderPatchText { node: NodeId, source: DdRenderProgramSource },
    Effect { node: NodeId, name: String, source: DdRenderProgramSource },
    Persistence { node: NodeId, source: DdRenderProgramSource },
}

/// How the rendered text is computed.
#[derive(Debug, PartialEq, Eq)]
pub enum DdRenderOperation {
    /// The text of the latest input event.
    LatestInputText,
    /// The text of the first branch that matches a tag.
    MatchTagText { tag: String, expr: DdRenderExpr },
    /// The number of input events, counted from `initial`.
    CountInputEvents { initial: i64 },
    /// A text that does not depend on events.
    StaticText { expr: DdRenderExpr },
}

/// A render expression.
#[derive(Debug, PartialEq, Eq)]
pub enum DdRenderExpr {
    Missing,
    Path(String),
    Number(String),
    Source,
    SourceAt { target: Box<DdRenderExpr> },
    Link { target: Option<Box<DdRenderExpr>> },
    Skip,
    Tag(String),
    Text(String),
    Record(Vec<DdRenderField>),
    List(Vec<DdRenderExpr>),
    Block(Vec<DdRenderExpr>),
    Latest(Vec<DdRenderExpr>),
    Call { callee: String, args: Vec<DdRenderArg> },
    Constructor { callee: String, fields: Vec<DdRenderField> },
    FieldAccess { base: Box<DdRenderExpr>, field: String },
    Pipe { input: Box<DdRenderExpr>, stage: Box<DdRenderExpr> },
    BinaryAdd { left: Box<DdRenderExpr>, right: Box<DdRenderExpr> },
    BinarySubtract { left: Box<DdRenderExpr>, right: Box<DdRenderExpr> },
    BinaryEqual { left: Box<DdRenderExpr>, right: Box<DdRenderExpr> },
    Then { body: Vec<DdRenderExpr> },
    Hold { binder: String, body: Vec<DdRenderExpr> },
    Match { kind: DdRenderMatchKind, arms: Vec<DdRenderMatchArm> },
}

#[derive(Debug, PartialEq, Eq)]
pub struct DdRenderField {
    pub name: String,
    pub value: DdRenderExpr,
}

#[derive(Debug, PartialEq, Eq)]
pub enum DdRenderArg {
    Positional(DdRenderExpr),
    Named { name: String, value: DdRenderExpr },
}

#[derive(Clone, Copy, Debug, PartialEq, Eq, Structural)]
pub enum DdRenderMatchKind {
    When,
    While,
}

#[derive(Debug, PartialEq, Eq)]
pub struct DdRenderMatchArm {
    pub pattern: String,
    pub value: DdRenderExpr,
}

/// The static dataflow graph of a module.
#[derive(Clone, Debug, PartialEq, Eq)]
pub struct StaticGraph {
    pub graph_id: String,
    pub source_path: String,
    pub source_hash: String,
    pub source_bindings: Vec<SourceBinding>,
    pub nodes: Vec<GraphNode>,
    pub operators: Vec<GraphOperator>,
    pub monitor_node: NodeId,
    pub render_node: NodeId,
    pub initial_text: String,
    pub physical_scene: bool,
}

/// A host command in a scenario step.
#[derive(Clone, Debug, PartialEq, Eq)]
pub struct ScenarioCommand {
    pub command: String,
}


/// A number in a scenario value: an integer, or a float kept as its IEEE-754
/// bits.
#[derive(Clone, Copy, Debug, PartialEq, Eq, Structural)]
pub enum BoonNumber {
    Int(i64),
    Float(u64),
}

/// A value a scenario sends to a source.
#[derive(Debug, PartialEq, Eq)]
pub enum BoonValue {
    EmptyRecord,
    Record(StrMap<BoonValue>),
    List(Vec<BoonValue>),
    Text(String),
    Number(BoonNumber),
    Tag { name: TagName, payload: Option<Box<BoonValue>> },
}

/// The mathematical value of a scenario value.
pub enum BVal {
    EmptyRecord,
    Record(Seq<(Seq<char>, BVal)>),
    List(Seq<BVal>),
    Text(Seq<char>),
    Number(BoonNumber),
    Tag(Seq<char>, Option<Box<BVal>>),
}

pub open spec fn bval(v: BoonValue) -> BVal
    decreases v,
{
    match v {
        BoonValue::EmptyRecord => BVal::EmptyRecord,
        BoonValue::Record(m) => BVal::Record(bval_entries(m.entries@)),
        BoonValue::List(vs) => BVal::List(bvals(vs@)),
        BoonValue::Text(t) => BVal::Text(t@),
        BoonValue::Number(n) => BVal::Number(n),
        BoonValue::Tag { name, payload } => BVal::Tag(
            name.0@,
            match payload {
                Some(p) => Some(Box::new(bval(*p))),
                None => None,
            },
        ),
    }
}

pub open spec fn bvals(vs: Seq<BoonValue>) -> Seq<BVal>
    decreases vs,
{
    Seq::new(
        vs.len(),
        |i: int|
            if 0 <= i < vs.len() {
                bval(vs[i])
            } else {
                BVal::EmptyRecord
            },
    )
}

pub open spec fn bval_entries(es: Seq<(String, BoonValue)>) -> Seq<(Seq<char>, BVal)>
    decreases es,
{
    Seq::new(
        es.len(),
        |i: int|
            if 0 <= i < es.len() {
                (es[i].0@, bval(es[i].1))
            } else {
                (Seq::empty(), BVal::EmptyRecord)
            },
    )
}

impl View for BoonValue {
    type V = BVal;

    open spec fn view(&self) -> BVal {
        bval(*self)
    }
}

/// An event a scenario sends to a source.
#[derive(Debug, PartialEq, Eq)]
pub struct SourceAction {
    pub source: String,
    pub owner: Option<OwnerKey>,
    pub generation: Option<u32>,
    pub value: BoonValue,
}

/// One event of a scenario step, in the order the step lists them.
#[derive(Debug, PartialEq, Eq)]
pub enum ScenarioEvent {
    Source(SourceAction),
    Command(ScenarioCommand),
}

/// A step of a scenario: its events, split into source actions and host
/// commands, and what the step expects.
#[derive(Debug, PartialEq, Eq)]
pub struct ScenarioStep {
    pub description: String,
    pub events: Vec<ScenarioEvent>,
    pub actions: Vec<SourceAction>,
    pub commands: Vec<ScenarioCommand>,
    pub expect_text: String,
    pub expect_monitor_changed: Vec<NodeId>,
}

/// A scripted run of an example.
#[derive(Debug, PartialEq, Eq)]
pub struct Scenario {
    pub initial_expect_text: String,
    pub steps: Vec<ScenarioStep>,
}

/// What one step of a compiled graph's scenario run produced.
#[derive(Clone, Debug, PartialEq)]
pub struct CompiledScenarioStepOutput {
    pub step_index: usize,
    pub description: String,
    pub event_count: usize,
    pub event_order: Vec<String>,
    pub action_count: usize,
    pub commands: Vec<ScenarioCommand>,
    pub expected_text: String,
    pub output: SmokeOutput,
}
/// The payload of a source event as the generated graphs receive it.
#[derive(Debug, PartialEq, Eq)]
pub enum GeneratedSourceEventPayload {
    EmptyRecord,
    Text(String),
    Number(BoonNumber),
    Tag { name: TagName, payload: Option<BoonValue> },
    Record(StrMap<BoonValue>),
    List(Vec<BoonValue>),
}

/// A source event: of a static source, or of one instance of a dynamic
/// source family.
#[derive(Debug, PartialEq, Eq)]
pub enum GeneratedSourceEvent {
    Static { source_id: SourceId, payload: GeneratedSourceEventPayload },
    Dynamic {
        family_id: SourceFamilyId,
        owner_key: OwnerKey,
        generation: u32,
        payload: GeneratedSourceEventPayload,
    },
}

} // verus!
