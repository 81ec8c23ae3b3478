//! Linking figures and tables to the knowledge graph.
//!
//! Retrieval reaches a figure or table through the entities that name its chunk
//! as a source. The entities that a vision model reads from a figure are given
//! that figure's chunk, and each table becomes an entity of its own.

use vstd::prelude::*;

use crate::backfill::{
    chunk_id_of, media_chunk_id, EmbedAction, EmbedEvent, EmbedPhase, EmbedRun, Medium,
};
use crate::figures::ExtractedFigure;
use crate::metadata::{
    copy_texts, field_views, float_field, single_field, text_field, texts_field, Field, MetaModel,
};
use crate::tables::{
    embed_text, render_table_embed_text, render_table_markdown, table_markdown, table_views,
    ExtractedTable, TableModel,
};
use crate::tasks::cat;
use crate::text::{
    chars_of, decimal, put_decimal, put_str, range_of, same_str, string_of, strs, trim, trim_of,
};

verus! {

broadcast use vstd::string::group_string_axioms;

/// Whom a node or edge belongs to.
#[derive(Clone, Debug)]
pub struct Owner {
    pub document_id: String,
    pub tenant_id: String,
    pub workspace_id: String,
}

/// A node of the graph.
#[derive(Clone, Debug)]
pub struct GraphNode {
    pub name: String,
    pub properties: Vec<Field>,
}

/// What a node is, as a mathematical value.
#[verifier::ext_equal]
pub struct NodeModel {
    pub name: Seq<char>,
    pub properties: Seq<(Seq<char>, MetaModel)>,
}

impl View for GraphNode {
    type V = NodeModel;

    open spec fn view(&self) -> NodeModel {
        NodeModel { name: self.name@, properties: field_views(self.properties@) }
    }
}

/// An edge of the graph.
#[derive(Clone, Debug)]
pub struct GraphEdge {
    pub source: String,
    pub target: String,
    pub properties: Vec<Field>,
}

/// What an edge is, as a mathematical value.
#[verifier::ext_equal]
pub struct EdgeModel {
    pub source: Seq<char>,
    pub target: Seq<char>,
    pub properties: Seq<(Seq<char>, MetaModel)>,
}

impl View for GraphEdge {
    type V = EdgeModel;

    open spec fn view(&self) -> EdgeModel {
        EdgeModel {
            source: self.source@,
            target: self.target@,
            properties: field_views(self.properties@),
        }
    }
}

/// An entity's vector and a chunk that it should lead to.
#[derive(Clone, Debug)]
pub struct ChunkLink {
    pub entity_id: String,
    pub chunk_id: String,
}

impl View for ChunkLink {
    type V = (Seq<char>, Seq<char>);

    open spec fn view(&self) -> (Seq<char>, Seq<char>) {
        (self.entity_id@, self.chunk_id@)
    }
}

// ---------------------------------------------------------------------------
// What a vision model reads from a figure
// ---------------------------------------------------------------------------

#[derive(Clone, Debug)]
pub struct ExtractedEntity {
    pub name: String,
    pub entity_type: String,
    pub description: String,
    /// The bits of a double-precision number.
    pub importance: u64,
    pub source_chunk_ids: Vec<String>,
}

#[derive(Clone, Debug)]
pub struct ExtractedRelationship {
    pub source: String,
    pub target: String,
    pub relation_type: String,
    pub description: String,
    /// The bits of a double-precision number.
    pub weight: u64,
    pub keywords: Vec<String>,
    pub source_chunk_id: Option<String>,
}

#[derive(Clone, Debug)]
pub struct Extraction {
    pub entities: Vec<ExtractedEntity>,
    pub relationships: Vec<ExtractedRelationship>,
}

/// The source chunks of an entity with one more, which is not listed twice.
pub open spec fn with_source(ids: Seq<Seq<char>>, chunk: Seq<char>) -> Seq<Seq<char>> {
    if ids.contains(chunk) {
        ids
    } else {
        ids.push(chunk)
    }
}

fn add_source(ids: &Vec<String>, chunk: &str) -> (r: Vec<String>)
    ensures
        strs(r@) == with_source(strs(ids@), chunk@),
{
    let mut r = copy_texts(ids);
    let ghost all = strs(ids@);
    let mut i: usize = 0;
    assert(all.len() == ids@.len());
    while i < ids.len()
        invariant
            i <= ids@.len(),
            all == strs(ids@),
            all.len() == ids@.len(),
            strs(r@) == all,
            forall|j: int| 0 <= j < i ==> #[trigger] all[j] != chunk@,
        decreases ids.len() - i,
    {
        assert(all[i as int] == ids@[i as int]@);
        if same_str(ids[i].as_str(), chunk) {
            assert(all.contains(chunk@));
            return r;
        }
        i = i + 1;
    }
    r.push(chunk.to_owned());
    assert(strs(r@) =~= all.push(chunk@));
    r
}

/// The node of an entity that was read from a chunk.
pub open spec fn entity_node(at: Owner, chunk: Seq<char>, e: ExtractedEntity) -> NodeModel {
    NodeModel {
        name: e.name@,
        properties: seq![
            ("entity_type"@, MetaModel::Text(e.entity_type@)),
            ("description"@, MetaModel::Text(e.description@)),
            ("importance"@, MetaModel::Float(e.importance)),
            ("source_ids"@, MetaModel::Texts(seq![at.document_id@])),
            (
                "source_chunk_ids"@,
                MetaModel::Texts(with_source(strs(e.source_chunk_ids@), chunk)),
            ),
            ("tenant_id"@, MetaModel::Text(at.tenant_id@)),
            ("workspace_id"@, MetaModel::Text(at.workspace_id@)),
        ],
    }
}

fn node_of(at: &Owner, chunk: &str, e: &ExtractedEntity) -> (r: GraphNode)
    ensures
        r@ == entity_node(*at, chunk@, *e),
{
    let sources = add_source(&e.source_chunk_ids, chunk);
    let r = GraphNode {
        name: e.name.clone(),
        properties: vec![
            text_field("entity_type", e.entity_type.as_str()),
            text_field("description", e.description.as_str()),
            float_field("importance", e.importance),
            single_field("source_ids", at.document_id.as_str()),
            texts_field("source_chunk_ids", &sources),
            text_field("tenant_id", at.tenant_id.as_str()),
            text_field("workspace_id", at.workspace_id.as_str()),
        ],
    };
    assert(r@.properties =~= entity_node(*at, chunk@, *e).properties);
    r
}

/// The chunk of a relationship: its own, or the one that it was read from.
pub open spec fn relation_chunk(chunk: Seq<char>, rel: ExtractedRelationship) -> Seq<char> {
    match rel.source_chunk_id {
        Some(c) => c@,
        None => chunk,
    }
}

/// The edge of a relationship that was read from a chunk.
pub open spec fn relation_edge(
    at: Owner,
    chunk: Seq<char>,
    rel: ExtractedRelationship,
) -> EdgeModel {
    EdgeModel {
        source: rel.source@,
        target: rel.target@,
        properties: seq![
            ("relation_type"@, MetaModel::Text(rel.relation_type@)),
            ("description"@, MetaModel::Text(rel.description@)),
            ("weight"@, MetaModel::Float(rel.weight)),
            ("keywords"@, MetaModel::Texts(strs(rel.keywords@))),
            ("source_ids"@, MetaModel::Texts(seq![at.document_id@])),
            ("source_chunk_ids"@, MetaModel::Texts(seq![relation_chunk(chunk, rel)])),
            ("tenant_id"@, MetaModel::Text(at.tenant_id@)),
            ("workspace_id"@, MetaModel::Text(at.workspace_id@)),
        ],
    }
}

fn edge_of(at: &Owner, chunk: &str, rel: &ExtractedRelationship) -> (r: GraphEdge)
    ensures
        r@ == relation_edge(*at, chunk@, *rel),
{
    let own = match &rel.source_chunk_id {
        Some(c) => c.clone(),
        None => chunk.to_owned(),
    };
    let r = GraphEdge {
        source: rel.source.clone(),
        target: rel.target.clone(),
        properties: vec![
            text_field("relation_type", rel.relation_type.as_str()),
            text_field("description", rel.description.as_str()),
            float_field("weight", rel.weight),
            texts_field("keywords", &rel.keywords),
            single_field("source_ids", at.document_id.as_str()),
            single_field("source_chunk_ids", own.as_str()),
            text_field("tenant_id", at.tenant_id.as_str()),
            text_field("workspace_id", at.workspace_id.as_str()),
        ],
    };
    assert(r@.properties =~= relation_edge(*at, chunk@, *rel).properties);
    r
}

/// The link from an entity's vector to the chunk it was read from.
pub open spec fn entity_link(chunk: Seq<char>, e: ExtractedEntity) -> (Seq<char>, Seq<char>) {
    ("entity:"@ + e.name@, chunk)
}

// ---------------------------------------------------------------------------
// What the figures of a document add to the graph
// ---------------------------------------------------------------------------

/// What was read from figures so far.
#[derive(Clone, Debug)]
pub struct FigureGraph {
    pub nodes: Vec<GraphNode>,
    pub edges: Vec<GraphEdge>,
    pub links: Vec<ChunkLink>,
}

/// What was read, as a mathematical value.
#[verifier::ext_equal]
pub struct GraphModel {
    pub nodes: Seq<NodeModel>,
    pub edges: Seq<EdgeModel>,
    pub links: Seq<(Seq<char>, Seq<char>)>,
}

impl View for FigureGraph {
    type V = GraphModel;

    open spec fn view(&self) -> GraphModel {
        GraphModel {
            nodes: self.nodes@.map_values(|n: GraphNode| n@),
            edges: self.edges@.map_values(|e: GraphEdge| e@),
            links: self.links@.map_values(|l: ChunkLink| l@),
        }
    }
}

/// The graph with what was read from one more chunk.
pub open spec fn with_reading(g: GraphModel, at: Owner, chunk: Seq<char>, x: Extraction) -> GraphModel {
    GraphModel {
        nodes: g.nodes + x.entities@.map_values(|e: ExtractedEntity| entity_node(at, chunk, e)),
        edges: g.edges + x.relationships@.map_values(
            |r: ExtractedRelationship| relation_edge(at, chunk, r),
        ),
        links: g.links + x.entities@.map_values(|e: ExtractedEntity| entity_link(chunk, e)),
    }
}

impl FigureGraph {
    pub open spec fn blank() -> GraphModel {
        GraphModel { nodes: Seq::empty(), edges: Seq::empty(), links: Seq::empty() }
    }

    /// Nothing was read yet.
    pub fn new() -> (r: Self)
        ensures
            r@ == Self::blank(),
    {
        let r = FigureGraph { nodes: Vec::new(), edges: Vec::new(), links: Vec::new() };
        assert(r@ =~= Self::blank());
        r
    }

    /// Adds what was read from a chunk.
    pub fn add_reading(&mut self, at: &Owner, chunk: &str, x: &Extraction)
        ensures
            final(self)@ == with_reading(old(self)@, *at, chunk@, *x),
    {
        let ghost before = self@;
        let ghost want_nodes = x.entities@.map_values(
            |e: ExtractedEntity| entity_node(*at, chunk@, e),
        );
        let ghost want_links = x.entities@.map_values(|e: ExtractedEntity| entity_link(chunk@, e));
        let ghost want_edges = x.relationships@.map_values(
            |r: ExtractedRelationship| relation_edge(*at, chunk@, r),
        );
        let mut i: usize = 0;
        assert(self@.nodes =~= before.nodes + want_nodes.take(0));
        assert(self@.links =~= before.links + want_links.take(0));
        while i < x.entities.len()
            invariant
                i <= x.entities@.len(),
                want_nodes == x.entities@.map_values(
                    |e: ExtractedEntity| entity_node(*at, chunk@, e),
                ),
                want_links == x.entities@.map_values(
                    |e: ExtractedEntity| entity_link(chunk@, e),
                ),
                self@.nodes == before.nodes + want_nodes.take(i as int),
                self@.links == before.links + want_links.take(i as int),
                self@.edges == before.edges,
            decreases x.entities.len() - i,
        {
            let ghost at_i = self@;
            let e = &x.entities[i];
            self.links.push(
                ChunkLink {
                    entity_id: cat("entity:", e.name.as_str()),
                    chunk_id: chunk.to_owned(),
                },
            );
            self.nodes.push(node_of(at, chunk, e));
            assert(self@.nodes =~= at_i.nodes.push(want_nodes[i as int]));
            assert(self@.links =~= at_i.links.push(want_links[i as int]));
            assert(want_nodes.take(i + 1) =~= want_nodes.take(i as int).push(
                want_nodes[i as int],
            ));
            assert(want_links.take(i + 1) =~= want_links.take(i as int).push(
                want_links[i as int],
            ));
            assert(self@.nodes =~= before.nodes + want_nodes.take(i + 1));
            assert(self@.links =~= before.links + want_links.take(i + 1));
            assert(self@.edges =~= at_i.edges);
            i = i + 1;
        }
        assert(want_nodes.take(i as int) =~= want_nodes);
        assert(want_links.take(i as int) =~= want_links);
        let mut k: usize = 0;
        assert(self@.edges =~= before.edges + want_edges.take(0));
        while k < x.relationships.len()
            invariant
                k <= x.relationships@.len(),
                want_edges == x.relationships@.map_values(
                    |r: ExtractedRelationship| relation_edge(*at, chunk@, r),
                ),
                self@.nodes == before.nodes + want_nodes,
                self@.links == before.links + want_links,
                self@.edges == before.edges + want_edges.take(k as int),
            decreases x.relationships.len() - k,
        {
            let ghost at_k = self@;
            self.edges.push(edge_of(at, chunk, &x.relationships[k]));
            assert(self@.edges =~= at_k.edges.push(want_edges[k as int]));
            assert(want_edges.take(k + 1) =~= want_edges.take(k as int).push(
                want_edges[k as int],
            ));
            assert(self@.edges =~= before.edges + want_edges.take(k + 1));
            assert(self@.nodes =~= at_k.nodes);
            assert(self@.links =~= at_k.links);
            k = k + 1;
        }
        assert(want_edges.take(k as int) =~= want_edges);
        assert(self@ =~= with_reading(before, *at, chunk@, *x));
    }
}

/// A reading adds one node and one link for each entity and one edge for each
/// relationship, behind what the graph held, in the order of the reading.
pub proof fn law_reading_only_adds(g: GraphModel, at: Owner, chunk: Seq<char>, x: Extraction)
    ensures
        with_reading(g, at, chunk, x).nodes.len() == g.nodes.len() + x.entities@.len(),
        with_reading(g, at, chunk, x).links.len() == g.links.len() + x.entities@.len(),
        with_reading(g, at, chunk, x).edges.len() == g.edges.len() + x.relationships@.len(),
        forall|i: int|
            0 <= i < g.nodes.len() ==> #[trigger] with_reading(g, at, chunk, x).nodes[i]
                == g.nodes[i],
        forall|i: int|
            0 <= i < g.links.len() ==> #[trigger] with_reading(g, at, chunk, x).links[i]
                == g.links[i],
        forall|i: int|
            0 <= i < g.edges.len() ==> #[trigger] with_reading(g, at, chunk, x).edges[i]
                == g.edges[i],
{
}

/// The edge that a reading adds for its `k`-th relationship leads from that
/// relationship's source to its target, and carries its type, description,
/// weight and keywords, the document and the owner. It names the chunk that the
/// relationship itself names, or else the chunk that was read.
pub proof fn law_edges_keep_direction(
    g: GraphModel,
    at: Owner,
    chunk: Seq<char>,
    x: Extraction,
    k: int,
)
    requires
        0 <= k < x.relationships@.len(),
    ensures
        ({
            let e = with_reading(g, at, chunk, x).edges[g.edges.len() + k];
            let rel = x.relationships@[k];
            &&& e.source == rel.source@
            &&& e.target == rel.target@
            &&& e.properties.contains(("relation_type"@, MetaModel::Text(rel.relation_type@)))
            &&& e.properties.contains(("description"@, MetaModel::Text(rel.description@)))
            &&& e.properties.contains(("weight"@, MetaModel::Float(rel.weight)))
            &&& e.properties.contains(("keywords"@, MetaModel::Texts(strs(rel.keywords@))))
            &&& e.properties.contains(("source_ids"@, MetaModel::Texts(seq![at.document_id@])))
            &&& rel.source_chunk_id matches Some(c) ==> e.properties.contains(
                ("source_chunk_ids"@, MetaModel::Texts(seq![c@])),
            )
            &&& rel.source_chunk_id is None ==> e.properties.contains(
                ("source_chunk_ids"@, MetaModel::Texts(seq![chunk])),
            )
            &&& e.properties.contains(("tenant_id"@, MetaModel::Text(at.tenant_id@)))
            &&& e.properties.contains(("workspace_id"@, MetaModel::Text(at.workspace_id@)))
            &&& e.properties.len() == 8
        }),
{
    let rel = x.relationships@[k];
    let e = with_reading(g, at, chunk, x).edges[g.edges.len() + k];
    let p = e.properties;
    assert(p[0] == ("relation_type"@, MetaModel::Text(rel.relation_type@)));
    assert(p[1] == ("description"@, MetaModel::Text(rel.description@)));
    assert(p[2] == ("weight"@, MetaModel::Float(rel.weight)));
    assert(p[3] == ("keywords"@, MetaModel::Texts(strs(rel.keywords@))));
    assert(p[4] == ("source_ids"@, MetaModel::Texts(seq![at.document_id@])));
    assert(p[5] == ("source_chunk_ids"@, MetaModel::Texts(seq![relation_chunk(chunk, rel)])));
    assert(p[6] == ("tenant_id"@, MetaModel::Text(at.tenant_id@)));
    assert(p[7] == ("workspace_id"@, MetaModel::Text(at.workspace_id@)));
}

/// The node that a reading adds for its `k`-th entity has that entity's name,
/// type, description and importance, the document and the owner. Its source
/// chunks are the entity's own, in their order, and the chunk that was read,
/// once; its link leads to the chunk that was read.
pub proof fn law_nodes_keep_entities(
    g: GraphModel,
    at: Owner,
    chunk: Seq<char>,
    x: Extraction,
    k: int,
)
    requires
        0 <= k < x.entities@.len(),
    ensures
        ({
            let all = with_reading(g, at, chunk, x);
            let n = all.nodes[g.nodes.len() + k];
            let e = x.entities@[k];
            &&& n.name == e.name@
            &&& all.links[g.links.len() + k] == ("entity:"@ + e.name@, chunk)
            &&& n.properties.contains(("entity_type"@, MetaModel::Text(e.entity_type@)))
            &&& n.properties.contains(("description"@, MetaModel::Text(e.description@)))
            &&& n.properties.contains(("importance"@, MetaModel::Float(e.importance)))
            &&& n.properties.contains(("source_ids"@, MetaModel::Texts(seq![at.document_id@])))
            &&& n.properties.contains(("tenant_id"@, MetaModel::Text(at.tenant_id@)))
            &&& n.properties.contains(("workspace_id"@, MetaModel::Text(at.workspace_id@)))
            &&& strs(e.source_chunk_ids@).contains(chunk) ==> n.properties.contains(
                ("source_chunk_ids"@, MetaModel::Texts(strs(e.source_chunk_ids@))),
            )
            &&& !strs(e.source_chunk_ids@).contains(chunk) ==> n.properties.contains(
                ("source_chunk_ids"@, MetaModel::Texts(strs(e.source_chunk_ids@).push(chunk))),
            )
            &&& n.properties.len() == 7
        }),
{
    let all = with_reading(g, at, chunk, x);
    let n = all.nodes[g.nodes.len() + k];
    let e = x.entities@[k];
    let p = n.properties;
    assert(p[0] == ("entity_type"@, MetaModel::Text(e.entity_type@)));
    assert(p[1] == ("description"@, MetaModel::Text(e.description@)));
    assert(p[2] == ("importance"@, MetaModel::Float(e.importance)));
    assert(p[3] == ("source_ids"@, MetaModel::Texts(seq![at.document_id@])));
    assert(p[4] == (
        "source_chunk_ids"@,
        MetaModel::Texts(with_source(strs(e.source_chunk_ids@), chunk)),
    ));
    assert(p[5] == ("tenant_id"@, MetaModel::Text(at.tenant_id@)));
    assert(p[6] == ("workspace_id"@, MetaModel::Text(at.workspace_id@)));
}

/// What the readings of the first figures add up to; a figure that could not be
/// read adds nothing.
pub open spec fn graph_of(
    at: Owner,
    figures: Seq<ExtractedFigure>,
    readings: Seq<Option<Extraction>>,
) -> GraphModel
    decreases readings.len(),
{
    if readings.len() == 0 {
        FigureGraph::blank()
    } else {
        let before = graph_of(at, figures, readings.drop_last());
        match readings.last() {
            Some(x) => with_reading(
                before,
                at,
                media_chunk_id(
                    at.document_id@,
                    Medium::Figure,
                    figures[readings.len() - 1].id@,
                ),
                x,
            ),
            None => before,
        }
    }
}

/// The link comes from the `i`-th figure: it leads from an entity that was read
/// there to that figure's chunk.
pub open spec fn link_from(
    link: (Seq<char>, Seq<char>),
    at: Owner,
    figure: ExtractedFigure,
    reading: Option<Extraction>,
) -> bool {
    &&& link.1 == media_chunk_id(at.document_id@, Medium::Figure, figure.id@)
    &&& reading matches Some(x) && exists|j: int|
        0 <= j < x.entities@.len() && link.0 == "entity:"@ + (#[trigger] x.entities@[j]).name@
}

/// An entity is linked to no other figure than the one it was read from, and
/// there are as many links as nodes.
pub proof fn law_links_are_own(
    at: Owner,
    figures: Seq<ExtractedFigure>,
    readings: Seq<Option<Extraction>>,
    k: int,
)
    requires
        readings.len() <= figures.len(),
        0 <= k < graph_of(at, figures, readings).links.len(),
    ensures
        graph_of(at, figures, readings).links.len() == graph_of(at, figures, readings).nodes.len(),
        exists|i: int|
            0 <= i < readings.len() && link_from(
                graph_of(at, figures, readings).links[k],
                at,
                figures[i],
                #[trigger] readings[i],
            ),
    decreases readings.len(),
{
    lemma_links_and_nodes(at, figures, readings);
    let before = graph_of(at, figures, readings.drop_last());
    let n = readings.len() - 1;
    let all = graph_of(at, figures, readings);
    assert(readings.last() == readings[n]);
    if k < before.links.len() {
        law_links_are_own(at, figures, readings.drop_last(), k);
        let i = choose|i: int|
            0 <= i < readings.drop_last().len() && link_from(
                before.links[k],
                at,
                figures[i],
                #[trigger] readings.drop_last()[i],
            );
        assert(readings.drop_last()[i] == readings[i]);
        assert(all.links[k] == before.links[k]);
        assert(link_from(all.links[k], at, figures[i], readings[i]));
    } else {
        let x = readings[n]->0;
        let j = k - before.links.len();
        let chunk = media_chunk_id(at.document_id@, Medium::Figure, figures[n].id@);
        assert(all.links[k] == entity_link(chunk, x.entities@[j]));
        assert(link_from(all.links[k], at, figures[n], readings[n]));
    }
}

proof fn lemma_links_and_nodes(
    at: Owner,
    figures: Seq<ExtractedFigure>,
    readings: Seq<Option<Extraction>>,
)
    ensures
        graph_of(at, figures, readings).links.len() == graph_of(at, figures, readings).nodes.len(),
    decreases readings.len(),
{
    if readings.len() > 0 {
        lemma_links_and_nodes(at, figures, readings.drop_last());
    }
}

// ---------------------------------------------------------------------------
// The run over the figures
// ---------------------------------------------------------------------------

/// Where a run stands.
#[derive(Clone, Copy, Debug, PartialEq, Eq, Structural)]
pub enum ReadPhase {
    NotStarted,
    Reading,
    StoringNodes,
    StoringEdges,
    Linking,
    Finished,
    Failed,
}

/// A run that reads the figures in order and then stores what was read.
#[derive(Clone, Debug)]
pub struct ReadRun {
    /// The figure in hand.
    pub figure: usize,
    pub phase: ReadPhase,
    pub graph: FigureGraph,
}

/// What happened outside.
#[derive(Clone, Debug)]
pub enum ReadEvent {
    Start,
    /// The figure in hand was read.
    Read { extraction: Extraction },
    /// The figure in hand could not be read.
    ReadFailed,
    NodesStored { error: Option<String> },
    EdgesStored { error: Option<String> },
    /// The links were stored, or could not be.
    Linked,
}

/// What to do next.
#[derive(Clone, Debug)]
pub enum ReadAction {
    Read { figure: usize, chunk_id: String },
    StoreNodes,
    StoreEdges,
    Link,
    Finish { entities: usize, relationships: usize },
    Fail { message: String },
}

/// What is left to do when nodes and edges were dealt with.
pub open spec fn phase_from_links(g: GraphModel) -> ReadPhase {
    if g.links.len() > 0 {
        ReadPhase::Linking
    } else {
        ReadPhase::Finished
    }
}

/// What is left to do when the nodes were dealt with.
pub open spec fn phase_from_edges(g: GraphModel) -> ReadPhase {
    if g.edges.len() > 0 {
        ReadPhase::StoringEdges
    } else {
        phase_from_links(g)
    }
}

/// What is left to do when every figure had its turn.
pub open spec fn phase_from_nodes(g: GraphModel) -> ReadPhase {
    if g.nodes.len() > 0 {
        ReadPhase::StoringNodes
    } else {
        phase_from_edges(g)
    }
}

impl ReadRun {
    /// The run can be in this state.
    pub open spec fn wf(self, figures: Seq<ExtractedFigure>) -> bool {
        &&& self.figure <= figures.len()
        &&& self.phase == ReadPhase::Reading ==> self.figure < figures.len()
        &&& self.phase == ReadPhase::NotStarted ==> self.figure == 0 && self.graph@
            == FigureGraph::blank()
    }

    /// The event can happen in this state.
    pub open spec fn expects(self, event: ReadEvent) -> bool {
        match event {
            ReadEvent::Start => self.phase == ReadPhase::NotStarted,
            ReadEvent::Read { .. } => self.phase == ReadPhase::Reading,
            ReadEvent::ReadFailed => self.phase == ReadPhase::Reading,
            ReadEvent::NodesStored { .. } => self.phase == ReadPhase::StoringNodes,
            ReadEvent::EdgesStored { .. } => self.phase == ReadPhase::StoringEdges,
            ReadEvent::Linked => self.phase == ReadPhase::Linking,
        }
    }

    /// What was read after an event.
    pub open spec fn graph_after(
        self,
        at: Owner,
        figures: Seq<ExtractedFigure>,
        event: ReadEvent,
    ) -> GraphModel {
        match event {
            ReadEvent::Read { extraction } => with_reading(
                self.graph@,
                at,
                media_chunk_id(at.document_id@, Medium::Figure, figures[self.figure as int].id@),
                extraction,
            ),
            _ => self.graph@,
        }
    }

    /// The figure in hand after an event.
    pub open spec fn figure_after(self, event: ReadEvent) -> int {
        match event {
            ReadEvent::Read { .. } => self.figure + 1,
            ReadEvent::ReadFailed => self.figure + 1,
            _ => self.figure as int,
        }
    }

    /// Where the run stands after an event.
    pub open spec fn phase_after(
        self,
        at: Owner,
        figures: Seq<ExtractedFigure>,
        event: ReadEvent,
    ) -> ReadPhase {
        let g = self.graph_after(at, figures, event);
        match event {
            ReadEvent::NodesStored { error } => if error is Some {
                ReadPhase::Failed
            } else {
                phase_from_edges(g)
            },
            ReadEvent::EdgesStored { error } => if error is Some {
                ReadPhase::Failed
            } else {
                phase_from_links(g)
            },
            ReadEvent::Linked => ReadPhase::Finished,
            _ => if self.figure_after(event) < figures.len() {
                ReadPhase::Reading
            } else {
                phase_from_nodes(g)
            },
        }
    }

    /// What to do in the state after an event.
    pub open spec fn acts(
        self,
        at: Owner,
        figures: Seq<ExtractedFigure>,
        event: ReadEvent,
        action: ReadAction,
    ) -> bool {
        match self.phase {
            ReadPhase::NotStarted => false,
            ReadPhase::Reading => action matches ReadAction::Read { figure, chunk_id } && figure
                == self.figure && chunk_id@ == media_chunk_id(
                at.document_id@,
                Medium::Figure,
                figures[self.figure as int].id@,
            ),
            ReadPhase::StoringNodes => action is StoreNodes,
            ReadPhase::StoringEdges => action is StoreEdges,
            ReadPhase::Linking => action is Link,
            ReadPhase::Finished => action == (ReadAction::Finish {
                entities: self.graph.nodes.len(),
                relationships: self.graph.edges.len(),
            }),
            ReadPhase::Failed => action matches ReadAction::Fail { message } && match event {
                ReadEvent::NodesStored { error: Some(e) } => message@ == "upsert_nodes_batch: "@
                    + e@,
                ReadEvent::EdgesStored { error: Some(e) } => message@ == "upsert_edges_batch: "@
                    + e@,
                _ => false,
            },
        }
    }

    /// A new run.
    pub fn new() -> (r: Self)
        ensures
            r.figure == 0,
            r.phase == ReadPhase::NotStarted,
            r.graph@ == FigureGraph::blank(),
            forall|figures: Seq<ExtractedFigure>| r.wf(figures),
    {
        ReadRun { figure: 0, phase: ReadPhase::NotStarted, graph: FigureGraph::new() }
    }

    fn links_phase(&self) -> (r: ReadPhase)
        ensures
            r == phase_from_links(self.graph@),
    {
        assert(self.graph@.links.len() == self.graph.links@.len());
        if self.graph.links.len() > 0 {
            ReadPhase::Linking
        } else {
            ReadPhase::Finished
        }
    }

    fn edges_phase(&self) -> (r: ReadPhase)
        ensures
            r == phase_from_edges(self.graph@),
    {
        assert(self.graph@.edges.len() == self.graph.edges@.len());
        if self.graph.edges.len() > 0 {
            ReadPhase::StoringEdges
        } else {
            self.links_phase()
        }
    }

    fn figure_phase(&self, figures: &Vec<ExtractedFigure>) -> (r: ReadPhase)
        ensures
            r == (if self.figure < figures@.len() {
                ReadPhase::Reading
            } else {
                phase_from_nodes(self.graph@)
            }),
    {
        assert(self.graph@.nodes.len() == self.graph.nodes@.len());
        if self.figure < figures.len() {
            ReadPhase::Reading
        } else if self.graph.nodes.len() > 0 {
            ReadPhase::StoringNodes
        } else {
            self.edges_phase()
        }
    }

    fn current_action(&self, at: &Owner, figures: &Vec<ExtractedFigure>) -> (action: ReadAction)
        requires
            self.wf(figures@),
            self.phase != ReadPhase::NotStarted,
            self.phase != ReadPhase::Failed,
        ensures
            self.acts(*at, figures@, ReadEvent::Start, action),
    {
        match self.phase {
            ReadPhase::Reading => ReadAction::Read {
                figure: self.figure,
                chunk_id: chunk_id_of(
                    at.document_id.as_str(),
                    Medium::Figure,
                    figures[self.figure].id.as_str(),
                ),
            },
            ReadPhase::StoringNodes => ReadAction::StoreNodes,
            ReadPhase::StoringEdges => ReadAction::StoreEdges,
            ReadPhase::Linking => ReadAction::Link,
            _ => ReadAction::Finish {
                entities: self.graph.nodes.len(),
                relationships: self.graph.edges.len(),
            },
        }
    }

    /// Takes in what happened and says what to do next.
    pub fn step(&mut self, at: &Owner, figures: &Vec<ExtractedFigure>, event: ReadEvent) -> (action:
        ReadAction)
        requires
            old(self).wf(figures@),
            old(self).expects(event),
        ensures
            final(self).wf(figures@),
            final(self).graph@ == old(self).graph_after(*at, figures@, event),
            final(self).figure == old(self).figure_after(event),
            final(self).phase == old(self).phase_after(*at, figures@, event),
            final(self).acts(*at, figures@, event, action),
    {
        let ghost now = event;
        let len = figures.len();
        assert(self.figure <= len);
        match event {
            ReadEvent::Start => {
                self.phase = self.figure_phase(figures);
            },
            ReadEvent::Read { extraction } => {
                let chunk = chunk_id_of(
                    at.document_id.as_str(),
                    Medium::Figure,
                    figures[self.figure].id.as_str(),
                );
                self.graph.add_reading(at, chunk.as_str(), &extraction);
                self.figure = self.figure + 1;
                self.phase = self.figure_phase(figures);
            },
            ReadEvent::ReadFailed => {
                self.figure = self.figure + 1;
                self.phase = self.figure_phase(figures);
            },
            ReadEvent::NodesStored { error } => {
                if let Some(e) = error {
                    self.phase = ReadPhase::Failed;
                    return ReadAction::Fail { message: cat("upsert_nodes_batch: ", e.as_str()) };
                }
                self.phase = self.edges_phase();
            },
            ReadEvent::EdgesStored { error } => {
                if let Some(e) = error {
                    self.phase = ReadPhase::Failed;
                    return ReadAction::Fail { message: cat("upsert_edges_batch: ", e.as_str()) };
                }
                self.phase = self.links_phase();
            },
            ReadEvent::Linked => {
                self.phase = ReadPhase::Finished;
            },
        }
        self.current_action(at, figures)
    }
}

// ---------------------------------------------------------------------------
// Tables as entities
// ---------------------------------------------------------------------------

/// How many characters of a caption name a table's entity.
pub const ENTITY_NAME_CAP: usize = 120;

/// One half, in the bits of a double-precision number.
pub const TABLE_IMPORTANCE: u64 = 0x3FE0_0000_0000_0000;

/// The entity of a table.
#[derive(Clone, Debug)]
pub struct TableEntity {
    pub name: String,
    /// What the entity's vector is made from.
    pub embed_text: String,
    /// The grid of the table.
    pub description: String,
    pub chunk_id: String,
}

/// What a table's entity is, as a mathematical value.
#[verifier::ext_equal]
pub struct TableEntityModel {
    pub name: Seq<char>,
    pub embed_text: Seq<char>,
    pub description: Seq<char>,
    pub chunk_id: Seq<char>,
}

impl View for TableEntity {
    type V = TableEntityModel;

    open spec fn view(&self) -> TableEntityModel {
        TableEntityModel {
            name: self.name@,
            embed_text: self.embed_text@,
            description: self.description@,
            chunk_id: self.chunk_id@,
        }
    }
}

/// The views of a list of entities.
pub open spec fn table_entity_views(es: Seq<TableEntity>) -> Seq<TableEntityModel> {
    es.map_values(|e: TableEntity| e@)
}

/// The name of a table's entity: its caption, or its place where it has none.
pub open spec fn table_entity_name(t: TableModel) -> Seq<char> {
    let c = trim(t.caption);
    if c.len() == 0 {
        "Table "@ + decimal(t.page as nat) + "."@ + decimal(t.order_index as nat)
    } else if c.len() <= ENTITY_NAME_CAP {
        c
    } else {
        c.take(ENTITY_NAME_CAP as int)
    }
}

/// The entity of a table, if it has a grid.
pub open spec fn table_entity(document_id: Seq<char>, t: TableModel) -> Option<TableEntityModel> {
    match table_markdown(t) {
        None => None,
        Some(grid) => Some(
            TableEntityModel {
                name: table_entity_name(t),
                embed_text: match embed_text(t) {
                    Some(e) => e,
                    None => grid,
                },
                description: grid,
                chunk_id: media_chunk_id(document_id, Medium::Table, t.id),
            },
        ),
    }
}

/// The entities of tables, in order.
pub open spec fn table_entities_of(document_id: Seq<char>, ts: Seq<TableModel>) -> Seq<
    TableEntityModel,
>
    decreases ts.len(),
{
    if ts.len() == 0 {
        Seq::empty()
    } else {
        let before = table_entities_of(document_id, ts.drop_last());
        match table_entity(document_id, ts.last()) {
            Some(e) => before.push(e),
            None => before,
        }
    }
}

fn table_entity_for(document_id: &str, table: &ExtractedTable) -> (r: Option<TableEntity>)
    ensures
        match r {
            Some(e) => table_entity(document_id@, table@) == Some(e@),
            None => table_entity(document_id@, table@) is None,
        },
{
    let grid = match render_table_markdown(table) {
        Some(s) => s,
        None => {
            return None;
        },
    };
    let embed = match render_table_embed_text(table) {
        Some(e) => e,
        None => grid.clone(),
    };
    let c = trim_of(&chars_of(table.caption.as_str()));
    let name = if c.len() == 0 {
        let mut out = chars_of("Table ");
        put_decimal(table.page as u64, &mut out);
        put_str(".", &mut out);
        put_decimal(table.order_index as u64, &mut out);
        string_of(&out)
    } else if c.len() <= ENTITY_NAME_CAP {
        string_of(&c)
    } else {
        let cut = range_of(&c, 0, ENTITY_NAME_CAP);
        assert(cut@ =~= c@.take(ENTITY_NAME_CAP as int));
        string_of(&cut)
    };
    assert(name@ =~= table_entity_name(table@));
    Some(
        TableEntity {
            name,
            embed_text: embed,
            description: grid,
            chunk_id: chunk_id_of(document_id, Medium::Table, table.id.as_str()),
        },
    )
}

/// The entities of the tables that have a grid, in order.
pub fn table_entities(document_id: &str, tables: &Vec<ExtractedTable>) -> (r: Vec<TableEntity>)
    ensures
        table_entity_views(r@) == table_entities_of(document_id@, table_views(tables@)),
{
    let ghost all = table_views(tables@);
    let mut r: Vec<TableEntity> = Vec::new();
    let mut i: usize = 0;
    assert(all.take(0) =~= Seq::<TableModel>::empty());
    assert(table_entity_views(r@) =~= Seq::<TableEntityModel>::empty());
    while i < tables.len()
        invariant
            i <= tables@.len(),
            all == table_views(tables@),
            table_entity_views(r@) == table_entities_of(document_id@, all.take(i as int)),
        decreases tables.len() - i,
    {
        assert(all.take(i + 1).drop_last() =~= all.take(i as int));
        assert(all.take(i + 1).last() == tables@[i as int]@);
        if let Some(e) = table_entity_for(document_id, &tables[i]) {
            let ghost before = table_entity_views(r@);
            let ghost m = e@;
            r.push(e);
            assert(table_entity_views(r@) =~= before.push(m));
        }
        i = i + 1;
    }
    assert(all.take(i as int) =~= all);
    r
}

/// The node of a table's entity.
pub open spec fn table_node_model(at: Owner, e: TableEntityModel) -> NodeModel {
    NodeModel {
        name: e.name,
        properties: seq![
            ("entity_type"@, MetaModel::Text("TABLE"@)),
            ("description"@, MetaModel::Text(e.description)),
            ("importance"@, MetaModel::Float(TABLE_IMPORTANCE)),
            ("source_ids"@, MetaModel::Texts(seq![at.document_id@])),
            ("source_chunk_ids"@, MetaModel::Texts(seq![e.chunk_id])),
            ("tenant_id"@, MetaModel::Text(at.tenant_id@)),
            ("workspace_id"@, MetaModel::Text(at.workspace_id@)),
        ],
    }
}

/// The node of a table's entity.
pub fn table_node(at: &Owner, e: &TableEntity) -> (r: GraphNode)
    ensures
        r@ == table_node_model(*at, e@),
{
    let r = GraphNode {
        name: e.name.clone(),
        properties: vec![
            text_field("entity_type", "TABLE"),
            text_field("description", e.description.as_str()),
            float_field("importance", TABLE_IMPORTANCE),
            single_field("source_ids", at.document_id.as_str()),
            single_field("source_chunk_ids", e.chunk_id.as_str()),
            text_field("tenant_id", at.tenant_id.as_str()),
            text_field("workspace_id", at.workspace_id.as_str()),
        ],
    };
    assert(r@.properties =~= table_node_model(*at, e@).properties);
    r
}

/// The metadata of the vector of a table's entity.
pub open spec fn table_entity_metadata(at: Owner, e: TableEntityModel) -> Seq<
    (Seq<char>, MetaModel),
> {
    seq![
        ("type"@, MetaModel::Text("entity"@)),
        ("name"@, MetaModel::Text(e.name)),
        ("entity_type"@, MetaModel::Text("TABLE"@)),
        ("description"@, MetaModel::Text(e.description)),
        ("document_id"@, MetaModel::Text(at.document_id@)),
        ("tenant_id"@, MetaModel::Text(at.tenant_id@)),
        ("workspace_id"@, MetaModel::Text(at.workspace_id@)),
    ]
}

/// The id and the metadata of the vector of a table's entity.
pub fn table_entity_vector(at: &Owner, e: &TableEntity) -> (r: (String, Vec<Field>))
    ensures
        r.0@ == "entity:"@ + e.name@,
        field_views(r.1@) == table_entity_metadata(*at, e@),
{
    let fields = vec![
        text_field("type", "entity"),
        text_field("name", e.name.as_str()),
        text_field("entity_type", "TABLE"),
        text_field("description", e.description.as_str()),
        text_field("document_id", at.document_id.as_str()),
        text_field("tenant_id", at.tenant_id.as_str()),
        text_field("workspace_id", at.workspace_id.as_str()),
    ];
    assert(field_views(fields@) =~= table_entity_metadata(*at, e@));
    (cat("entity:", e.name.as_str()), fields)
}

/// Whether the run over the tables goes on once their nodes were stored, or why
/// it does not.
pub fn table_nodes_stored(error: Option<String>) -> (r: Result<(), String>)
    ensures
        match error {
            None => r is Ok,
            Some(e) => r matches Err(m) && m@ == "upsert_nodes_batch (tables): "@ + e@,
        },
{
    match error {
        None => Ok(()),
        Some(e) => Err(cat("upsert_nodes_batch (tables): ", e.as_str())),
    }
}

// ---------------------------------------------------------------------------
// Adding the tables of a document
// ---------------------------------------------------------------------------

/// Where a run stands.
#[derive(Clone, Copy, Debug, PartialEq, Eq, Structural)]
pub enum LinkPhase {
    NotStarted,
    StoringNodes,
    Embedding,
    Ended,
}

/// A run that stores the nodes of the entities of tables and then a vector for
/// each. Without entities there is nothing to store.
#[derive(Clone, Debug)]
pub struct LinkRun {
    /// Which entities get a vector: all of them.
    pub wanted: Vec<bool>,
    pub vectors: EmbedRun,
    pub phase: LinkPhase,
}

/// What happened outside.
#[derive(Clone, Debug)]
pub enum LinkEvent {
    Start,
    /// The nodes were stored, unless there is an error.
    NodesStored { error: Option<String> },
    /// The vector of the entity in hand came, or did not.
    Embedded { ok: bool },
    /// The vector was stored, or was not.
    Upserted { ok: bool },
}

/// What to do next.
#[derive(Clone, Debug)]
pub enum LinkAction {
    StoreNodes,
    Embed { item: usize },
    Upsert { item: usize },
    Finish { stored: usize },
    Fail { message: String },
}

/// The action of the run over the vectors.
pub open spec fn vector_action(a: EmbedAction) -> LinkAction {
    match a {
        EmbedAction::Embed { item } => LinkAction::Embed { item },
        EmbedAction::Upsert { item } => LinkAction::Upsert { item },
        EmbedAction::Finish { stored } => LinkAction::Finish { stored },
    }
}

impl LinkRun {
    /// The run can be in this state.
    pub open spec fn wf(self) -> bool {
        &&& forall|i: int| 0 <= i < self.wanted@.len() ==> self.wanted@[i]
        &&& self.vectors.wf(self.wanted@)
        &&& self.phase == LinkPhase::NotStarted || self.phase == LinkPhase::StoringNodes
            ==> self.vectors.phase == EmbedPhase::NotStarted
    }

    /// The event can happen in this state.
    pub open spec fn expects(self, event: LinkEvent) -> bool {
        match event {
            LinkEvent::Start => self.phase == LinkPhase::NotStarted,
            LinkEvent::NodesStored { .. } => self.phase == LinkPhase::StoringNodes,
            LinkEvent::Embedded { .. } => self.phase == LinkPhase::Embedding
                && self.vectors.phase == EmbedPhase::Embedding,
            LinkEvent::Upserted { .. } => self.phase == LinkPhase::Embedding
                && self.vectors.phase == EmbedPhase::Upserting,
        }
    }

    /// The run over the vectors after an event.
    pub open spec fn vectors_after(self, event: LinkEvent) -> EmbedRun {
        match event {
            LinkEvent::Start => self.vectors,
            LinkEvent::NodesStored { error } => if error is Some {
                self.vectors
            } else {
                self.vectors.after(self.wanted@, EmbedEvent::Start)
            },
            LinkEvent::Embedded { ok } => self.vectors.after(
                self.wanted@,
                EmbedEvent::Embedded { ok },
            ),
            LinkEvent::Upserted { ok } => self.vectors.after(
                self.wanted@,
                EmbedEvent::Upserted { ok },
            ),
        }
    }

    /// Where the run stands after an event.
    pub open spec fn phase_after(self, event: LinkEvent) -> LinkPhase {
        match event {
            LinkEvent::Start => if self.wanted@.len() == 0 {
                LinkPhase::Ended
            } else {
                LinkPhase::StoringNodes
            },
            LinkEvent::NodesStored { error: Some(_) } => LinkPhase::Ended,
            _ => if self.vectors_after(event).phase == EmbedPhase::Finished {
                LinkPhase::Ended
            } else {
                LinkPhase::Embedding
            },
        }
    }

    /// A new run over the entities.
    pub fn new(entities: &Vec<TableEntity>) -> (r: Self)
        ensures
            r.wf(),
            r.wanted@.len() == entities@.len(),
            r.vectors == (EmbedRun { item: 0, stored: 0, phase: EmbedPhase::NotStarted }),
            r.phase == LinkPhase::NotStarted,
    {
        let mut wanted: Vec<bool> = Vec::new();
        let mut i: usize = 0;
        while i < entities.len()
            invariant
                i <= entities@.len(),
                wanted@.len() == i,
                forall|k: int| 0 <= k < i ==> wanted@[k],
            decreases entities.len() - i,
        {
            wanted.push(true);
            i = i + 1;
        }
        LinkRun { wanted, vectors: EmbedRun::new(), phase: LinkPhase::NotStarted }
    }

    fn go_on(&mut self, event: EmbedEvent) -> (action: LinkAction)
        requires
            old(self).wf(),
            old(self).vectors.expects(event),
        ensures
            final(self).wanted == old(self).wanted,
            final(self).vectors == old(self).vectors.after(old(self).wanted@, event),
            final(self).vectors.wf(old(self).wanted@),
            final(self).phase == (if final(self).vectors.phase == EmbedPhase::Finished {
                LinkPhase::Ended
            } else {
                LinkPhase::Embedding
            }),
            action == vector_action(final(self).vectors.action()),
    {
        let mut vectors = self.vectors;
        let a = vectors.step(&self.wanted, event);
        self.vectors = vectors;
        self.phase = if vectors.phase == EmbedPhase::Finished {
            LinkPhase::Ended
        } else {
            LinkPhase::Embedding
        };
        match a {
            EmbedAction::Embed { item } => LinkAction::Embed { item },
            EmbedAction::Upsert { item } => LinkAction::Upsert { item },
            EmbedAction::Finish { stored } => LinkAction::Finish { stored },
        }
    }

    /// Takes in what happened and says what to do next.
    pub fn step(&mut self, event: LinkEvent) -> (action: LinkAction)
        requires
            old(self).wf(),
            old(self).expects(event),
        ensures
            final(self).wf(),
            final(self).wanted == old(self).wanted,
            final(self).vectors == old(self).vectors_after(event),
            final(self).phase == old(self).phase_after(event),
            match event {
                LinkEvent::Start => if old(self).wanted@.len() == 0 {
                    action == (LinkAction::Finish { stored: 0 })
                } else {
                    action is StoreNodes
                },
                LinkEvent::NodesStored { error: Some(e) } => action matches LinkAction::Fail {
                    message,
                } && message@ == "upsert_nodes_batch (tables): "@ + e@,
                _ => action == vector_action(final(self).vectors.action()),
            },
    {
        match event {
            LinkEvent::Start => {
                if self.wanted.len() == 0 {
                    self.phase = LinkPhase::Ended;
                    return LinkAction::Finish { stored: 0 };
                }
                self.phase = LinkPhase::StoringNodes;
                LinkAction::StoreNodes
            },
            LinkEvent::NodesStored { error } => match table_nodes_stored(error) {
                Ok(_) => self.go_on(EmbedEvent::Start),
                Err(message) => {
                    self.phase = LinkPhase::Ended;
                    LinkAction::Fail { message }
                },
            },
            LinkEvent::Embedded { ok } => self.go_on(EmbedEvent::Embedded { ok }),
            LinkEvent::Upserted { ok } => self.go_on(EmbedEvent::Upserted { ok }),
        }
    }
}

} // verus!
