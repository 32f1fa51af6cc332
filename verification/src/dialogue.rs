//! The link structure of a DLG dialogue: its entries (spoken by the NPC),
//! its replies (spoken by the player) and its starting links, each link
//! naming a node of the other kind by its position, with the structural
//! edits that add and remove nodes and links and that set a link's scripts.
use crate::error::EditError;
use crate::text::{trim_spec, trim_text, valid_resref_text, validate_resref};
use vstd::prelude::*;

verus! {

/// Which kind of node of a dialogue: spoken by the NPC or by the player.
#[derive(Debug, Clone, Copy, PartialEq, Eq, Structural)]
pub enum DialogueNodeKind {
    Entry,
    Reply,
}

/// A node of a dialogue: its kind and its position in the list of that kind.
#[derive(Debug, Clone, Copy, PartialEq, Eq)]
pub struct DialogueNodeRef {
    pub kind: DialogueNodeKind,
    pub index: usize,
}

/// The labels under which a dialogue stores its nodes of a kind, in the order
/// they are looked for.
pub open spec fn spec_dialogue_list_labels(kind: DialogueNodeKind) -> Seq<Seq<char>> {
    match kind {
        DialogueNodeKind::Entry => seq!["EntryList"@, "EntriesList"@],
        DialogueNodeKind::Reply => seq!["ReplyList"@, "RepliesList"@],
    }
}

/// The labels under which a node of a kind stores its links to the other kind.
pub open spec fn spec_dialogue_outgoing_labels(kind: DialogueNodeKind) -> Seq<Seq<char>> {
    match kind {
        DialogueNodeKind::Entry => seq!["RepliesList"@, "ReplyList"@],
        DialogueNodeKind::Reply => seq!["EntriesList"@, "EntryList"@],
    }
}

pub fn dialogue_list_labels(kind: DialogueNodeKind) -> (labels: Vec<&'static str>)
    ensures
        labels@.len() == 2,
        labels@[0]@ == spec_dialogue_list_labels(kind)[0],
        labels@[1]@ == spec_dialogue_list_labels(kind)[1],
{
    let mut labels: Vec<&'static str> = Vec::new();
    match kind {
        DialogueNodeKind::Entry => {
            labels.push("EntryList");
            labels.push("EntriesList");
        },
        DialogueNodeKind::Reply => {
            labels.push("ReplyList");
            labels.push("RepliesList");
        },
    }
    labels
}

pub fn dialogue_outgoing_labels(kind: DialogueNodeKind) -> (labels: Vec<&'static str>)
    ensures
        labels@.len() == 2,
        labels@[0]@ == spec_dialogue_outgoing_labels(kind)[0],
        labels@[1]@ == spec_dialogue_outgoing_labels(kind)[1],
{
    let mut labels: Vec<&'static str> = Vec::new();
    match kind {
        DialogueNodeKind::Entry => {
            labels.push("RepliesList");
            labels.push("ReplyList");
        },
        DialogueNodeKind::Reply => {
            labels.push("EntriesList");
            labels.push("EntryList");
        },
    }
    labels
}


/// The most nodes of one kind a dialogue holds.
pub const MAX_DIALOGUE_NODES: usize = 100_000;

/// The most links one link list of a dialogue holds.
pub const MAX_DIALOGUE_LINKS: usize = 250_000;

/// A link: the position of the node it leads to (none where the link holds
/// no unsigned `Index`), and the ResRefs of its condition and action scripts.
#[derive(Debug, Clone, PartialEq, Eq)]
pub struct DialogueLink {
    pub target: Option<usize>,
    pub condition_script: Option<String>,
    pub action_script: Option<String>,
}

/// A field that should hold a list of links: absent, not a list, or the links.
#[derive(Debug, Clone, PartialEq, Eq)]
pub enum LinkList {
    Missing,
    NotAList,
    Links(Vec<DialogueLink>),
}

/// The field that should hold the nodes of one kind: absent, not a list, or
/// the nodes, each given by its list of outgoing links.
#[derive(Debug, Clone, PartialEq, Eq)]
pub enum NodeList {
    Missing,
    NotAList,
    Nodes(Vec<LinkList>),
}

/// The link structure of a dialogue.
#[derive(Debug, Clone, PartialEq, Eq)]
pub struct DialogueGraph {
    pub entries: NodeList,
    pub replies: NodeList,
    pub starting: LinkList,
}

/// A structural edit of a dialogue. A link is named by the node it leaves
/// (none for a starting link) and its position among that node's links.
#[derive(Debug, Clone, PartialEq, Eq)]
pub enum DialogueStructureAction {
    AddNode { node_kind: DialogueNodeKind },
    RemoveNode { node: DialogueNodeRef },
    AddLink { source: Option<DialogueNodeRef>, target: DialogueNodeRef },
    SetLinkScripts {
        source: Option<DialogueNodeRef>,
        position: usize,
        condition_script: Option<String>,
        action_script: Option<String>,
    },
    RemoveLink { source: Option<DialogueNodeRef>, position: usize },
}

/// A link by its texts.
pub struct LinkView {
    pub target: Option<usize>,
    pub condition: Option<Seq<char>>,
    pub action: Option<Seq<char>>,
}

pub enum LinkListView {
    Missing,
    NotAList,
    Links(Seq<LinkView>),
}

pub enum NodeListView {
    Missing,
    NotAList,
    Nodes(Seq<LinkListView>),
}

/// A dialogue's link structure by its texts.
pub struct DialogueView {
    pub entries: NodeListView,
    pub replies: NodeListView,
    pub starting: LinkListView,
}

pub open spec fn script_view(script: Option<String>) -> Option<Seq<char>> {
    match script {
        Some(name) => Some(name@),
        None => None,
    }
}

impl DialogueLink {
    pub open spec fn view(&self) -> LinkView {
        LinkView {
            target: self.target,
            condition: script_view(self.condition_script),
            action: script_view(self.action_script),
        }
    }
}

pub open spec fn links_view(links: Seq<DialogueLink>) -> Seq<LinkView> {
    Seq::new(links.len(), |i: int| links[i].view())
}

impl LinkList {
    pub open spec fn view(&self) -> LinkListView {
        match self {
            LinkList::Missing => LinkListView::Missing,
            LinkList::NotAList => LinkListView::NotAList,
            LinkList::Links(links) => LinkListView::Links(links_view(links@)),
        }
    }
}

pub open spec fn nodes_view(nodes: Seq<LinkList>) -> Seq<LinkListView> {
    Seq::new(nodes.len(), |i: int| nodes[i].view())
}

impl NodeList {
    pub open spec fn view(&self) -> NodeListView {
        match self {
            NodeList::Missing => NodeListView::Missing,
            NodeList::NotAList => NodeListView::NotAList,
            NodeList::Nodes(nodes) => NodeListView::Nodes(nodes_view(nodes@)),
        }
    }
}

impl DialogueGraph {
    pub open spec fn view(&self) -> DialogueView {
        DialogueView {
            entries: self.entries.view(),
            replies: self.replies.view(),
            starting: self.starting.view(),
        }
    }
}

/// The kind of node that a link leaving `source` leads to: a starting link
/// and a reply lead to an entry, an entry to a reply.
pub open spec fn expected_target_kind(source: Option<DialogueNodeRef>) -> DialogueNodeKind {
    match source {
        None => DialogueNodeKind::Entry,
        Some(node) => match node.kind {
            DialogueNodeKind::Entry => DialogueNodeKind::Reply,
            DialogueNodeKind::Reply => DialogueNodeKind::Entry,
        },
    }
}

pub open spec fn node_list(dialogue: DialogueView, kind: DialogueNodeKind) -> NodeListView {
    match kind {
        DialogueNodeKind::Entry => dialogue.entries,
        DialogueNodeKind::Reply => dialogue.replies,
    }
}

pub open spec fn with_node_list(dialogue: DialogueView, kind: DialogueNodeKind, list: NodeListView) -> DialogueView {
    match kind {
        DialogueNodeKind::Entry => DialogueView { entries: list, ..dialogue },
        DialogueNodeKind::Reply => DialogueView { replies: list, ..dialogue },
    }
}

/// The nodes of a list that an edit changes, or why they cannot be had.
pub open spec fn nodes_for_edit(list: NodeListView) -> Result<Seq<LinkListView>, EditError> {
    match list {
        NodeListView::Missing => Err(EditError::GffFieldNotFound),
        NodeListView::NotAList => Err(EditError::GffPathInvalid),
        NodeListView::Nodes(nodes) => Ok(nodes),
    }
}

/// The nodes of a list that an edit looks up, or why they cannot be had.
pub open spec fn nodes_for_reading(list: NodeListView) -> Result<Seq<LinkListView>, EditError> {
    match list {
        NodeListView::Missing => Err(EditError::DialogueNodeListNotFound),
        NodeListView::NotAList => Err(EditError::DialogueNodeListInvalid),
        NodeListView::Nodes(nodes) => Ok(nodes),
    }
}

/// The links of a list that an edit changes, or why they cannot be had.
pub open spec fn links_for_edit(list: LinkListView) -> Result<Seq<LinkView>, EditError> {
    match list {
        LinkListView::Missing => Err(EditError::GffFieldNotFound),
        LinkListView::NotAList => Err(EditError::GffPathInvalid),
        LinkListView::Links(links) => Ok(links),
    }
}

/// The links that leave `source` (the starting links for none).
pub open spec fn source_links(dialogue: DialogueView, source: Option<DialogueNodeRef>) -> Result<
    Seq<LinkView>,
    EditError,
> {
    match source {
        None => links_for_edit(dialogue.starting),
        Some(node) => match nodes_for_edit(node_list(dialogue, node.kind)) {
            Err(error) => Err(error),
            Ok(nodes) => if node.index >= nodes.len() {
                Err(EditError::DialogueNodeNotFound)
            } else {
                links_for_edit(nodes[node.index as int])
            },
        },
    }
}

/// The dialogue with the links that leave `source` replaced.
pub open spec fn with_source_links(
    dialogue: DialogueView,
    source: Option<DialogueNodeRef>,
    links: Seq<LinkView>,
) -> DialogueView {
    match source {
        None => DialogueView { starting: LinkListView::Links(links), ..dialogue },
        Some(node) => match node_list(dialogue, node.kind) {
            NodeListView::Nodes(nodes) => with_node_list(
                dialogue,
                node.kind,
                NodeListView::Nodes(nodes.update(node.index as int, LinkListView::Links(links))),
            ),
            _ => dialogue,
        },
    }
}

/// The links that remain when node `removed` goes: those to it are dropped,
/// those to later nodes lead one position lower; a link without a target
/// refuses the edit.
pub open spec fn spec_retarget(links: Seq<LinkView>, removed: usize) -> Result<Seq<LinkView>, EditError>
    decreases links.len(),
{
    if links.len() == 0 {
        Ok(seq![])
    } else {
        match spec_retarget(links.drop_last(), removed) {
            Err(error) => Err(error),
            Ok(earlier) => {
                let link = links.last();
                match link.target {
                    None => Err(EditError::DialogueLinkIndexInvalid),
                    Some(t) => if t == removed {
                        Ok(earlier)
                    } else if t > removed {
                        Ok(earlier.push(LinkView { target: Some((t - 1) as usize), ..link }))
                    } else {
                        Ok(earlier.push(link))
                    },
                }
            },
        }
    }
}

/// A link list retargeted; an absent list stays absent.
pub open spec fn spec_retarget_list(list: LinkListView, removed: usize) -> Result<LinkListView, EditError> {
    match list {
        LinkListView::Missing => Ok(LinkListView::Missing),
        LinkListView::NotAList => Err(EditError::DialogueLinkListInvalid),
        LinkListView::Links(links) => match spec_retarget(links, removed) {
            Err(error) => Err(error),
            Ok(kept) => Ok(LinkListView::Links(kept)),
        },
    }
}

/// The outgoing link lists of nodes retargeted, node by node.
pub open spec fn spec_retarget_nodes(nodes: Seq<LinkListView>, removed: usize) -> Result<
    Seq<LinkListView>,
    EditError,
>
    decreases nodes.len(),
{
    if nodes.len() == 0 {
        Ok(seq![])
    } else {
        match spec_retarget_nodes(nodes.drop_last(), removed) {
            Err(error) => Err(error),
            Ok(earlier) => match spec_retarget_list(nodes.last(), removed) {
                Err(error) => Err(error),
                Ok(list) => Ok(earlier.push(list)),
            },
        }
    }
}

/// A script as a link keeps it: trimmed, and none where nothing remains.
pub open spec fn trimmed_script(script: Option<String>) -> Option<Seq<char>> {
    match script {
        Some(name) => if trim_spec(name@).len() == 0 {
            None
        } else {
            Some(trim_spec(name@))
        },
        None => None,
    }
}

pub open spec fn script_acceptable(script: Option<Seq<char>>) -> bool {
    script matches Some(name) ==> valid_resref_text(name)
}

/// What a structural edit makes of a dialogue of GFF type `file_type`: the
/// edited dialogue, or the error that refuses the edit.
pub open spec fn spec_edit_dialogue(
    dialogue: DialogueView,
    file_type: Seq<char>,
    action: DialogueStructureAction,
) -> Result<DialogueView, EditError> {
    if file_type != "DLG "@ {
        Err(EditError::DialogueFormatInvalid)
    } else {
        match action {
            DialogueStructureAction::AddNode { node_kind } => match nodes_for_edit(
                node_list(dialogue, node_kind),
            ) {
                Err(error) => Err(error),
                Ok(nodes) => if nodes.len() >= MAX_DIALOGUE_NODES {
                    Err(EditError::DialogueNodeLimitExceeded)
                } else {
                    Ok(
                        with_node_list(
                            dialogue,
                            node_kind,
                            NodeListView::Nodes(nodes.push(LinkListView::Links(seq![]))),
                        ),
                    )
                },
            },
            DialogueStructureAction::RemoveNode { node } => match nodes_for_edit(
                node_list(dialogue, node.kind),
            ) {
                Err(error) => Err(error),
                Ok(nodes) => if node.index >= nodes.len() {
                    Err(EditError::DialogueNodeNotFound)
                } else {
                    let remaining = nodes.remove(node.index as int);
                    match node.kind {
                        DialogueNodeKind::Entry => match spec_retarget_list(
                            dialogue.starting,
                            node.index,
                        ) {
                            Err(error) => Err(error),
                            Ok(starting) => match nodes_for_edit(dialogue.replies) {
                                Err(error) => Err(error),
                                Ok(replies) => match spec_retarget_nodes(replies, node.index) {
                                    Err(error) => Err(error),
                                    Ok(replies) => Ok(
                                        DialogueView {
                                            entries: NodeListView::Nodes(remaining),
                                            replies: NodeListView::Nodes(replies),
                                            starting,
                                        },
                                    ),
                                },
                            },
                        },
                        DialogueNodeKind::Reply => match nodes_for_edit(dialogue.entries) {
                            Err(error) => Err(error),
                            Ok(entries) => match spec_retarget_nodes(entries, node.index) {
                                Err(error) => Err(error),
                                Ok(entries) => Ok(
                                    DialogueView {
                                        entries: NodeListView::Nodes(entries),
                                        replies: NodeListView::Nodes(remaining),
                                        starting: dialogue.starting,
                                    },
                                ),
                            },
                        },
                    }
                },
            },
            DialogueStructureAction::AddLink { source, target } => if target.kind
                != expected_target_kind(source) {
                Err(EditError::DialogueLinkKindInvalid)
            } else {
                match nodes_for_reading(node_list(dialogue, target.kind)) {
                    Err(error) => Err(error),
                    Ok(targets) => if target.index >= targets.len() {
                        Err(EditError::DialogueLinkTargetNotFound)
                    } else {
                        match source_checked(dialogue, source) {
                            Some(error) => Err(error),
                            None => match source_links(dialogue, source) {
                                Err(error) => Err(error),
                                Ok(links) => if links.len() >= MAX_DIALOGUE_LINKS {
                                    Err(EditError::DialogueLinkLimitExceeded)
                                } else {
                                    Ok(
                                        with_source_links(
                                            dialogue,
                                            source,
                                            links.push(
                                                LinkView {
                                                    target: Some(target.index),
                                                    condition: None,
                                                    action: None,
                                                },
                                            ),
                                        ),
                                    )
                                },
                            },
                        }
                    },
                }
            },
            DialogueStructureAction::SetLinkScripts {
                source,
                position,
                condition_script,
                action_script,
            } => match source_links(dialogue, source) {
                Err(error) => Err(error),
                Ok(links) => if position >= links.len() {
                    Err(EditError::DialogueLinkNotFound)
                } else {
                    let condition = trimmed_script(condition_script);
                    let action = trimmed_script(action_script);
                    if !script_acceptable(condition) || !script_acceptable(action) {
                        Err(EditError::ResrefInvalid)
                    } else {
                        Ok(
                            with_source_links(
                                dialogue,
                                source,
                                links.update(
                                    position as int,
                                    LinkView { target: links[position as int].target, condition, action },
                                ),
                            ),
                        )
                    }
                },
            },
            DialogueStructureAction::RemoveLink { source, position } => match source_links(
                dialogue,
                source,
            ) {
                Err(error) => Err(error),
                Ok(links) => if position >= links.len() {
                    Err(EditError::DialogueLinkNotFound)
                } else {
                    Ok(with_source_links(dialogue, source, links.remove(position as int)))
                },
            },
        }
    }
}

/// Why the node a new link leaves cannot be looked up, if it cannot.
pub open spec fn source_checked(dialogue: DialogueView, source: Option<DialogueNodeRef>) -> Option<EditError> {
    match source {
        None => None,
        Some(node) => match nodes_for_reading(node_list(dialogue, node.kind)) {
            Err(error) => Some(error),
            Ok(nodes) => if node.index >= nodes.len() {
                Some(EditError::DialogueNodeNotFound)
            } else {
                None
            },
        },
    }
}

proof fn lemma_links_view_push(links: Seq<DialogueLink>, link: DialogueLink)
    ensures
        links_view(links.push(link)) == links_view(links).push(link.view()),
{
    assert(links_view(links.push(link)) =~= links_view(links).push(link.view()));
}

proof fn lemma_nodes_view_push(nodes: Seq<LinkList>, node: LinkList)
    ensures
        nodes_view(nodes.push(node)) == nodes_view(nodes).push(node.view()),
{
    assert(nodes_view(nodes.push(node)) =~= nodes_view(nodes).push(node.view()));
}

fn copy_script(script: &Option<String>) -> (copy: Option<String>)
    ensures
        copy == *script,
{
    match script {
        Some(name) => Some(name.clone()),
        None => None,
    }
}

fn copy_link(link: &DialogueLink) -> (copy: DialogueLink)
    ensures
        copy == *link,
{
    DialogueLink {
        target: link.target,
        condition_script: copy_script(&link.condition_script),
        action_script: copy_script(&link.action_script),
    }
}

fn copy_links(links: &Vec<DialogueLink>) -> (copy: Vec<DialogueLink>)
    ensures
        copy@ == links@,
{
    let mut copy: Vec<DialogueLink> = Vec::new();
    let mut i: usize = 0;
    while i < links.len()
        invariant
            i <= links@.len(),
            copy@ == links@.take(i as int),
        decreases links@.len() - i,
    {
        copy.push(copy_link(&links[i]));
        proof {
            assert(links@.take(i + 1) =~= links@.take(i as int).push(links@[i as int]));
        }
        i = i + 1;
    }
    assert(links@.take(links@.len() as int) =~= links@);
    copy
}

fn copy_link_list(list: &LinkList) -> (copy: LinkList)
    ensures
        copy.view() == list.view(),
{
    match list {
        LinkList::Missing => LinkList::Missing,
        LinkList::NotAList => LinkList::NotAList,
        LinkList::Links(links) => LinkList::Links(copy_links(links)),
    }
}

fn copy_nodes(nodes: &Vec<LinkList>) -> (copy: Vec<LinkList>)
    ensures
        nodes_view(copy@) == nodes_view(nodes@),
{
    let mut copy: Vec<LinkList> = Vec::new();
    let mut i: usize = 0;
    while i < nodes.len()
        invariant
            i <= nodes@.len(),
            nodes_view(copy@) == nodes_view(nodes@.take(i as int)),
        decreases nodes@.len() - i,
    {
        let ghost before = copy@;
        copy.push(copy_link_list(&nodes[i]));
        proof {
            lemma_nodes_view_push(before, copy@.last());
            assert(nodes@.take(i + 1) =~= nodes@.take(i as int).push(nodes@[i as int]));
            lemma_nodes_view_push(nodes@.take(i as int), nodes@[i as int]);
            assert(copy@ =~= before.push(copy@.last()));
        }
        i = i + 1;
    }
    assert(nodes@.take(nodes@.len() as int) =~= nodes@);
    copy
}

fn copy_node_list(list: &NodeList) -> (copy: NodeList)
    ensures
        copy.view() == list.view(),
{
    match list {
        NodeList::Missing => NodeList::Missing,
        NodeList::NotAList => NodeList::NotAList,
        NodeList::Nodes(nodes) => NodeList::Nodes(copy_nodes(nodes)),
    }
}

proof fn lemma_retarget_error_stays(links: Seq<LinkView>, removed: usize, n: int, k: int)
    requires
        0 <= n <= k <= links.len(),
        spec_retarget(links.take(n), removed) is Err,
    ensures
        spec_retarget(links.take(k), removed) == spec_retarget(links.take(n), removed),
    decreases k - n,
{
    if k > n {
        lemma_retarget_error_stays(links, removed, n, k - 1);
        assert(links.take(k).drop_last() =~= links.take(k - 1));
    }
}

fn retarget_links(links: &Vec<DialogueLink>, removed: usize) -> (result: Result<Vec<DialogueLink>, EditError>)
    ensures
        match spec_retarget(links_view(links@), removed) {
            Ok(kept) => result matches Ok(out) && links_view(out@) == kept,
            Err(error) => result == Err::<Vec<DialogueLink>, EditError>(error),
        },
{
    let ghost all = links_view(links@);
    let mut out: Vec<DialogueLink> = Vec::new();
    let mut i: usize = 0;
    assert(all.take(0) =~= Seq::<LinkView>::empty());
    assert(links_view(out@) =~= Seq::<LinkView>::empty());
    while i < links.len()
        invariant
            i <= links@.len(),
            all == links_view(links@),
            spec_retarget(all.take(i as int), removed) == Ok::<Seq<LinkView>, EditError>(
                links_view(out@),
            ),
        decreases links@.len() - i,
    {
        let link = &links[i];
        let ghost before = out@;
        proof {
            assert(all.take(i + 1).drop_last() =~= all.take(i as int));
            assert(all.take(i + 1).last() == link.view());
        }
        match link.target {
            None => {
                proof {
                    lemma_retarget_error_stays(all, removed, i + 1, all.len() as int);
                    assert(all.take(all.len() as int) =~= all);
                }
                return Err(EditError::DialogueLinkIndexInvalid);
            },
            Some(t) => {
                if t > removed {
                    out.push(
                        DialogueLink {
                            target: Some(t - 1),
                            condition_script: copy_script(&link.condition_script),
                            action_script: copy_script(&link.action_script),
                        },
                    );
                    proof {
                        assert(out@ =~= before.push(out@.last()));
                        lemma_links_view_push(before, out@.last());
                    }
                } else if t < removed {
                    out.push(copy_link(link));
                    proof {
                        assert(out@ =~= before.push(out@.last()));
                        lemma_links_view_push(before, out@.last());
                    }
                }
            },
        }
        i = i + 1;
    }
    assert(all.take(all.len() as int) =~= all);
    Ok(out)
}

fn retarget_link_list(list: &LinkList, removed: usize) -> (result: Result<LinkList, EditError>)
    ensures
        match spec_retarget_list(list.view(), removed) {
            Ok(kept) => result matches Ok(out) && out.view() == kept,
            Err(error) => result == Err::<LinkList, EditError>(error),
        },
{
    match list {
        LinkList::Missing => Ok(LinkList::Missing),
        LinkList::NotAList => Err(EditError::DialogueLinkListInvalid),
        LinkList::Links(links) => match retarget_links(links, removed) {
            Ok(kept) => Ok(LinkList::Links(kept)),
            Err(error) => Err(error),
        },
    }
}

proof fn lemma_retarget_nodes_error_stays(nodes: Seq<LinkListView>, removed: usize, n: int, k: int)
    requires
        0 <= n <= k <= nodes.len(),
        spec_retarget_nodes(nodes.take(n), removed) is Err,
    ensures
        spec_retarget_nodes(nodes.take(k), removed) == spec_retarget_nodes(nodes.take(n), removed),
    decreases k - n,
{
    if k > n {
        lemma_retarget_nodes_error_stays(nodes, removed, n, k - 1);
        assert(nodes.take(k).drop_last() =~= nodes.take(k - 1));
    }
}

fn retarget_nodes(nodes: &Vec<LinkList>, removed: usize) -> (result: Result<Vec<LinkList>, EditError>)
    ensures
        match spec_retarget_nodes(nodes_view(nodes@), removed) {
            Ok(kept) => result matches Ok(out) && nodes_view(out@) == kept,
            Err(error) => result == Err::<Vec<LinkList>, EditError>(error),
        },
{
    let ghost all = nodes_view(nodes@);
    let mut out: Vec<LinkList> = Vec::new();
    let mut i: usize = 0;
    assert(all.take(0) =~= Seq::<LinkListView>::empty());
    assert(nodes_view(out@) =~= Seq::<LinkListView>::empty());
    while i < nodes.len()
        invariant
            i <= nodes@.len(),
            all == nodes_view(nodes@),
            spec_retarget_nodes(all.take(i as int), removed) == Ok::<Seq<LinkListView>, EditError>(
                nodes_view(out@),
            ),
        decreases nodes@.len() - i,
    {
        proof {
            assert(all.take(i + 1).drop_last() =~= all.take(i as int));
            assert(all.take(i + 1).last() == nodes@[i as int].view());
        }
        let ghost before = out@;
        match retarget_link_list(&nodes[i], removed) {
            Err(error) => {
                proof {
                    lemma_retarget_nodes_error_stays(all, removed, i + 1, all.len() as int);
                    assert(all.take(all.len() as int) =~= all);
                }
                return Err(error);
            },
            Ok(list) => {
                out.push(list);
                proof {
                    assert(out@ =~= before.push(out@.last()));
                    lemma_nodes_view_push(before, out@.last());
                }
            },
        }
        i = i + 1;
    }
    assert(all.take(all.len() as int) =~= all);
    Ok(out)
}

/// The script as a link keeps it, checked.
fn prepared_script(script: &Option<String>) -> (result: Result<Option<String>, EditError>)
    ensures
        match result {
            Ok(kept) => script_acceptable(trimmed_script(*script)) && script_view(kept)
                == trimmed_script(*script),
            Err(error) => !script_acceptable(trimmed_script(*script)) && error
                == EditError::ResrefInvalid,
        },
{
    match script {
        None => Ok(None),
        Some(name) => {
            let trimmed = trim_text(name.as_str());
            if trimmed.is_empty() {
                Ok(None)
            } else {
                validate_resref(trimmed)?;
                Ok(Some(String::from_str(trimmed)))
            }
        },
    }
}

impl DialogueGraph {
    fn nodes_of(&self, kind: DialogueNodeKind) -> (list: &NodeList)
        ensures
            list.view() == node_list(self.view(), kind),
    {
        match kind {
            DialogueNodeKind::Entry => &self.entries,
            DialogueNodeKind::Reply => &self.replies,
        }
    }

    fn with_nodes(&self, kind: DialogueNodeKind, list: NodeList) -> (dialogue: DialogueGraph)
        ensures
            dialogue.view() == with_node_list(self.view(), kind, list.view()),
    {
        match kind {
            DialogueNodeKind::Entry => DialogueGraph {
                entries: list,
                replies: copy_node_list(&self.replies),
                starting: copy_link_list(&self.starting),
            },
            DialogueNodeKind::Reply => DialogueGraph {
                entries: copy_node_list(&self.entries),
                replies: list,
                starting: copy_link_list(&self.starting),
            },
        }
    }

    fn links_from(&self, source: Option<DialogueNodeRef>) -> (result: Result<&Vec<DialogueLink>, EditError>)
        ensures
            match source_links(self.view(), source) {
                Ok(links) => result matches Ok(found) && links_view(found@) == links,
                Err(error) => result == Err::<&Vec<DialogueLink>, EditError>(error),
            },
    {
        let list = match source {
            None => &self.starting,
            Some(node) => match self.nodes_of(node.kind) {
                NodeList::Missing => return Err(EditError::GffFieldNotFound),
                NodeList::NotAList => return Err(EditError::GffPathInvalid),
                NodeList::Nodes(nodes) => {
                    if node.index >= nodes.len() {
                        return Err(EditError::DialogueNodeNotFound);
                    }
                    &nodes[node.index]
                },
            },
        };
        match list {
            LinkList::Missing => Err(EditError::GffFieldNotFound),
            LinkList::NotAList => Err(EditError::GffPathInvalid),
            LinkList::Links(links) => Ok(links),
        }
    }

    fn with_links(&self, source: Option<DialogueNodeRef>, links: Vec<DialogueLink>) -> (dialogue: DialogueGraph)
        requires
            source_links(self.view(), source) is Ok,
        ensures
            dialogue.view() == with_source_links(self.view(), source, links_view(links@)),
    {
        match source {
            None => DialogueGraph {
                entries: copy_node_list(&self.entries),
                replies: copy_node_list(&self.replies),
                starting: LinkList::Links(links),
            },
            Some(node) => match self.nodes_of(node.kind) {
                NodeList::Nodes(nodes) => {
                    let mut changed = copy_nodes(nodes);
                    changed.set(node.index, LinkList::Links(links));
                    proof {
                        assert(nodes_view(changed@) =~= nodes_view(nodes@).update(
                            node.index as int,
                            LinkListView::Links(links_view(links@)),
                        ));
                    }
                    self.with_nodes(node.kind, NodeList::Nodes(changed))
                },
                _ => self.with_nodes(node.kind, copy_node_list(self.nodes_of(node.kind))),
            },
        }
    }

    fn edited(&self, file_type: &str, action: &DialogueStructureAction) -> (result: Result<
        DialogueGraph,
        EditError,
    >)
        ensures
            match spec_edit_dialogue(self.view(), file_type@, *action) {
                Ok(dialogue) => result matches Ok(edited) && edited.view() == dialogue,
                Err(error) => result == Err::<DialogueGraph, EditError>(error),
            },
    {
        if !crate::resource::text_equal(file_type, "DLG ") {
            return Err(EditError::DialogueFormatInvalid);
        }
        match action {
            DialogueStructureAction::AddNode { node_kind } => match self.nodes_of(*node_kind) {
                NodeList::Missing => Err(EditError::GffFieldNotFound),
                NodeList::NotAList => Err(EditError::GffPathInvalid),
                NodeList::Nodes(nodes) => {
                    if nodes.len() >= MAX_DIALOGUE_NODES {
                        return Err(EditError::DialogueNodeLimitExceeded);
                    }
                    let copied = copy_nodes(nodes);
                    let mut grown = copied;
                    let fresh = LinkList::Links(Vec::new());
                    proof {
                        assert(links_view(Seq::<DialogueLink>::empty()) =~= seq![]);
                        lemma_nodes_view_push(copied@, fresh);
                    }
                    grown.push(fresh);
                    Ok(self.with_nodes(*node_kind, NodeList::Nodes(grown)))
                },
            },
            DialogueStructureAction::RemoveNode { node } => {
                let nodes = match self.nodes_of(node.kind) {
                    NodeList::Missing => return Err(EditError::GffFieldNotFound),
                    NodeList::NotAList => return Err(EditError::GffPathInvalid),
                    NodeList::Nodes(nodes) => nodes,
                };
                if node.index >= nodes.len() {
                    return Err(EditError::DialogueNodeNotFound);
                }
                let mut remaining = copy_nodes(nodes);
                remaining.remove(node.index);
                proof {
                    assert(nodes_view(remaining@) =~= nodes_view(nodes@).remove(node.index as int));
                }
                match node.kind {
                    DialogueNodeKind::Entry => {
                        let starting = retarget_link_list(&self.starting, node.index)?;
                        let replies = match &self.replies {
                            NodeList::Missing => return Err(EditError::GffFieldNotFound),
                            NodeList::NotAList => return Err(EditError::GffPathInvalid),
                            NodeList::Nodes(replies) => retarget_nodes(replies, node.index)?,
                        };
                        Ok(
                            DialogueGraph {
                                entries: NodeList::Nodes(remaining),
                                replies: NodeList::Nodes(replies),
                                starting,
                            },
                        )
                    },
                    DialogueNodeKind::Reply => {
                        let entries = match &self.entries {
                            NodeList::Missing => return Err(EditError::GffFieldNotFound),
                            NodeList::NotAList => return Err(EditError::GffPathInvalid),
                            NodeList::Nodes(entries) => retarget_nodes(entries, node.index)?,
                        };
                        Ok(
                            DialogueGraph {
                                entries: NodeList::Nodes(entries),
                                replies: NodeList::Nodes(remaining),
                                starting: copy_link_list(&self.starting),
                            },
                        )
                    },
                }
            },
            DialogueStructureAction::AddLink { source, target } => {
                let expected = match source {
                    None => DialogueNodeKind::Entry,
                    Some(node) => match node.kind {
                        DialogueNodeKind::Entry => DialogueNodeKind::Reply,
                        DialogueNodeKind::Reply => DialogueNodeKind::Entry,
                    },
                };
                if target.kind != expected {
                    return Err(EditError::DialogueLinkKindInvalid);
                }
                match self.nodes_of(target.kind) {
                    NodeList::Missing => return Err(EditError::DialogueNodeListNotFound),
                    NodeList::NotAList => return Err(EditError::DialogueNodeListInvalid),
                    NodeList::Nodes(targets) => {
                        if target.index >= targets.len() {
                            return Err(EditError::DialogueLinkTargetNotFound);
                        }
                    },
                }
                if let Some(node) = source {
                    match self.nodes_of(node.kind) {
                        NodeList::Missing => return Err(EditError::DialogueNodeListNotFound),
                        NodeList::NotAList => return Err(EditError::DialogueNodeListInvalid),
                        NodeList::Nodes(nodes) => {
                            if node.index >= nodes.len() {
                                return Err(EditError::DialogueNodeNotFound);
                            }
                        },
                    }
                }
                let links = self.links_from(*source)?;
                if links.len() >= MAX_DIALOGUE_LINKS {
                    return Err(EditError::DialogueLinkLimitExceeded);
                }
                let mut grown = copy_links(links);
                grown.push(
                    DialogueLink { target: Some(target.index), condition_script: None, action_script: None },
                );
                proof {
                    assert(links_view(grown@) =~= links_view(links@).push(
                        LinkView { target: Some(target.index), condition: None, action: None },
                    ));
                }
                Ok(self.with_links(*source, grown))
            },
            DialogueStructureAction::SetLinkScripts {
                source,
                position,
                condition_script,
                action_script,
            } => {
                let links = self.links_from(*source)?;
                if *position >= links.len() {
                    return Err(EditError::DialogueLinkNotFound);
                }
                let condition = prepared_script(condition_script)?;
                let action_kept = prepared_script(action_script)?;
                let mut changed = copy_links(links);
                changed.set(
                    *position,
                    DialogueLink {
                        target: links[*position].target,
                        condition_script: condition,
                        action_script: action_kept,
                    },
                );
                proof {
                    assert(links_view(changed@) =~= links_view(links@).update(
                        *position as int,
                        LinkView {
                            target: links@[*position as int].target,
                            condition: trimmed_script(*condition_script),
                            action: trimmed_script(*action_script),
                        },
                    ));
                }
                Ok(self.with_links(*source, changed))
            },
            DialogueStructureAction::RemoveLink { source, position } => {
                let links = self.links_from(*source)?;
                if *position >= links.len() {
                    return Err(EditError::DialogueLinkNotFound);
                }
                let mut changed = copy_links(links);
                changed.remove(*position);
                proof {
                    assert(links_view(changed@) =~= links_view(links@).remove(*position as int));
                }
                Ok(self.with_links(*source, changed))
            },
        }
    }

    /// Applies a structural edit to a dialogue of GFF type `file_type`:
    /// adds or removes a node (dropping the links to a removed node and
    /// moving those to later nodes one position down), or adds, removes or
    /// sets the scripts of a link. A refused edit changes nothing.
    pub fn edit(&mut self, file_type: &str, action: &DialogueStructureAction) -> (result: Result<
        (),
        EditError,
    >)
        ensures
            match spec_edit_dialogue(old(self).view(), file_type@, *action) {
                Ok(dialogue) => result is Ok && final(self).view() == dialogue,
                Err(error) => result == Err::<(), EditError>(error) && final(self).view()
                    == old(self).view(),
            },
    {
        match self.edited(file_type, action) {
            Ok(dialogue) => {
                *self = dialogue;
                Ok(())
            },
            Err(error) => Err(error),
        }
    }
}

/// The link leads to one of `count` nodes.
pub open spec fn target_below(link: LinkView, count: int) -> bool {
    link.target matches Some(t) && t < count
}

/// Every link of the list leads to one of `count` nodes.
pub open spec fn links_within(list: LinkListView, count: int) -> bool {
    &&& list is Links
    &&& forall|i: int|
        0 <= i < list->Links_0.len() ==> target_below(#[trigger] list->Links_0[i], count)
}

/// Every node's links lead to one of `count` nodes.
pub open spec fn all_within(nodes: Seq<LinkListView>, count: int) -> bool {
    forall|i: int| 0 <= i < nodes.len() ==> links_within(#[trigger] nodes[i], count)
}

/// A dialogue without broken links: both node lists are there, and every
/// link leads to a node that exists (starting links and replies' links to
/// entries, entries' links to replies).
pub open spec fn dialogue_consistent(dialogue: DialogueView) -> bool {
    &&& dialogue.entries is Nodes
    &&& dialogue.replies is Nodes
    &&& links_within(dialogue.starting, dialogue.entries->Nodes_0.len() as int)
    &&& all_within(dialogue.entries->Nodes_0, dialogue.replies->Nodes_0.len() as int)
    &&& all_within(dialogue.replies->Nodes_0, dialogue.entries->Nodes_0.len() as int)
}

proof fn lemma_within_grows(list: LinkListView, count: int, more: int)
    requires
        links_within(list, count),
        count <= more,
    ensures
        links_within(list, more),
{
}

proof fn lemma_all_within_grows(nodes: Seq<LinkListView>, count: int, more: int)
    requires
        all_within(nodes, count),
        count <= more,
    ensures
        all_within(nodes, more),
{
    assert forall|i: int| 0 <= i < nodes.len() implies links_within(#[trigger] nodes[i], more) by {
        lemma_within_grows(nodes[i], count, more);
    }
}

proof fn lemma_retarget_within(links: Seq<LinkView>, removed: usize, count: int)
    requires
        links_within(LinkListView::Links(links), count),
        removed < count,
    ensures
        spec_retarget(links, removed) is Ok,
        links_within(LinkListView::Links(spec_retarget(links, removed)->Ok_0), count - 1),
    decreases links.len(),
{
    assert(LinkListView::Links(links)->Links_0 == links);
    if links.len() > 0 {
        let shorter = links.drop_last();
        assert forall|i: int| 0 <= i < shorter.len() implies target_below(#[trigger] shorter[i], count) by {
            assert(shorter[i] == links[i]);
            assert(target_below(links[i], count));
        }
        assert(LinkListView::Links(shorter)->Links_0 == shorter);
        lemma_retarget_within(shorter, removed, count);
        let earlier = spec_retarget(shorter, removed)->Ok_0;
        assert(LinkListView::Links(earlier)->Links_0 == earlier);
        let last = links.last();
        assert(target_below(links[links.len() - 1], count));
        let kept = spec_retarget(links, removed)->Ok_0;
        assert(LinkListView::Links(kept)->Links_0 == kept);
        assert forall|i: int| 0 <= i < kept.len() implies target_below(#[trigger] kept[i], count - 1) by {
            if i < earlier.len() {
                assert(kept[i] == earlier[i]);
                assert(target_below(earlier[i], count - 1));
            }
        }
    }
}

proof fn lemma_retarget_nodes_within(nodes: Seq<LinkListView>, removed: usize, count: int)
    requires
        all_within(nodes, count),
        removed < count,
    ensures
        spec_retarget_nodes(nodes, removed) is Ok,
        all_within(spec_retarget_nodes(nodes, removed)->Ok_0, count - 1),
        spec_retarget_nodes(nodes, removed)->Ok_0.len() == nodes.len(),
    decreases nodes.len(),
{
    if nodes.len() > 0 {
        let shorter = nodes.drop_last();
        assert forall|i: int| 0 <= i < shorter.len() implies links_within(#[trigger] shorter[i], count) by {
            assert(shorter[i] == nodes[i]);
        }
        lemma_retarget_nodes_within(shorter, removed, count);
        let last = nodes.last();
        assert(links_within(nodes[nodes.len() - 1], count));
        lemma_retarget_within(last->Links_0, removed, count);
        let earlier = spec_retarget_nodes(shorter, removed)->Ok_0;
        let kept = spec_retarget_nodes(nodes, removed)->Ok_0;
        assert forall|i: int| 0 <= i < kept.len() implies links_within(#[trigger] kept[i], count - 1) by {
            if i < earlier.len() {
                assert(kept[i] == earlier[i]);
            }
        }
    }
}

proof fn lemma_remove_within(nodes: Seq<LinkListView>, index: int, count: int)
    requires
        all_within(nodes, count),
        0 <= index < nodes.len(),
    ensures
        all_within(nodes.remove(index), count),
{
    let rest = nodes.remove(index);
    assert forall|i: int| 0 <= i < rest.len() implies links_within(#[trigger] rest[i], count) by {
        if i < index {
            assert(rest[i] == nodes[i]);
        } else {
            assert(rest[i] == nodes[i + 1]);
        }
    }
}

/// The links of `source` in a consistent dialogue lead to nodes of the kind
/// a link from there must lead to.
proof fn lemma_source_links_within(dialogue: DialogueView, source: Option<DialogueNodeRef>)
    requires
        dialogue_consistent(dialogue),
        source_links(dialogue, source) is Ok,
    ensures
        links_within(
            LinkListView::Links(source_links(dialogue, source)->Ok_0),
            nodes_for_edit(node_list(dialogue, expected_target_kind(source)))->Ok_0.len() as int,
        ),
{
    if let Some(node) = source {
        let nodes = nodes_for_edit(node_list(dialogue, node.kind))->Ok_0;
        assert(links_within(nodes[node.index as int], nodes_for_edit(node_list(dialogue, expected_target_kind(source)))->Ok_0.len() as int));
    }
}

/// Replacing the links of `source` by links that lead to existing nodes of
/// the right kind keeps a dialogue consistent.
proof fn lemma_with_source_links_consistent(
    dialogue: DialogueView,
    source: Option<DialogueNodeRef>,
    links: Seq<LinkView>,
)
    requires
        dialogue_consistent(dialogue),
        source_links(dialogue, source) is Ok,
        links_within(
            LinkListView::Links(links),
            nodes_for_edit(node_list(dialogue, expected_target_kind(source)))->Ok_0.len() as int,
        ),
    ensures
        dialogue_consistent(with_source_links(dialogue, source, links)),
{
    if let Some(node) = source {
        let nodes = nodes_for_edit(node_list(dialogue, node.kind))->Ok_0;
        let changed = nodes.update(node.index as int, LinkListView::Links(links));
        let count = nodes_for_edit(node_list(dialogue, expected_target_kind(source)))->Ok_0.len() as int;
        assert forall|i: int| 0 <= i < changed.len() implies links_within(#[trigger] changed[i], count) by {
            if i != node.index {
                assert(changed[i] == nodes[i]);
            }
        }
    }
}

/// The promise of the dialogue editor: structural edits retarget links
/// without leaving broken indexes. An edit of a dialogue whose links all
/// lead to existing nodes gives a dialogue whose links all lead to existing
/// nodes; removing a node drops the links to it and moves those to later
/// nodes one position down.
pub proof fn law_dialogue_edits_keep_links_valid(
    dialogue: DialogueView,
    file_type: Seq<char>,
    action: DialogueStructureAction,
)
    requires
        dialogue_consistent(dialogue),
    ensures
        spec_edit_dialogue(dialogue, file_type, action) matches Ok(edited) ==> dialogue_consistent(
            edited,
        ),
{
    if let Ok(edited) = spec_edit_dialogue(dialogue, file_type, action) {
        let entries = dialogue.entries->Nodes_0;
        let replies = dialogue.replies->Nodes_0;
        match action {
            DialogueStructureAction::AddNode { node_kind } => {
                let fresh = LinkListView::Links(seq![]);
                match node_kind {
                    DialogueNodeKind::Entry => {
                        let grown = entries.push(fresh);
                        assert forall|i: int| 0 <= i < grown.len() implies links_within(#[trigger] grown[i], replies.len() as int) by {
                            if i < entries.len() {
                                assert(grown[i] == entries[i]);
                            }
                        }
                        lemma_within_grows(dialogue.starting, entries.len() as int, grown.len() as int);
                        lemma_all_within_grows(replies, entries.len() as int, grown.len() as int);
                    },
                    DialogueNodeKind::Reply => {
                        let grown = replies.push(fresh);
                        assert forall|i: int| 0 <= i < grown.len() implies links_within(#[trigger] grown[i], entries.len() as int) by {
                            if i < replies.len() {
                                assert(grown[i] == replies[i]);
                            }
                        }
                        lemma_all_within_grows(entries, replies.len() as int, grown.len() as int);
                    },
                }
            },
            DialogueStructureAction::RemoveNode { node } => {
                match node.kind {
                    DialogueNodeKind::Entry => {
                        lemma_retarget_within(dialogue.starting->Links_0, node.index, entries.len() as int);
                        lemma_retarget_nodes_within(replies, node.index, entries.len() as int);
                        lemma_remove_within(entries, node.index as int, replies.len() as int);
                    },
                    DialogueNodeKind::Reply => {
                        lemma_retarget_nodes_within(entries, node.index, replies.len() as int);
                        lemma_remove_within(replies, node.index as int, entries.len() as int);
                    },
                }
            },
            DialogueStructureAction::AddLink { source, target } => {
                let links = source_links(dialogue, source)->Ok_0;
                let count = nodes_for_edit(node_list(dialogue, expected_target_kind(source)))->Ok_0.len() as int;
                lemma_source_links_within(dialogue, source);
                let grown = links.push(LinkView { target: Some(target.index), condition: None, action: None });
                assert forall|i: int| 0 <= i < grown.len() implies target_below(#[trigger] grown[i], count) by {
                    if i < links.len() {
                        assert(grown[i] == links[i]);
                    }
                }
                lemma_with_source_links_consistent(dialogue, source, grown);
            },
            DialogueStructureAction::SetLinkScripts { source, position, condition_script, action_script } => {
                let links = source_links(dialogue, source)->Ok_0;
                let count = nodes_for_edit(node_list(dialogue, expected_target_kind(source)))->Ok_0.len() as int;
                lemma_source_links_within(dialogue, source);
                let changed = links.update(
                    position as int,
                    LinkView {
                        target: links[position as int].target,
                        condition: trimmed_script(condition_script),
                        action: trimmed_script(action_script),
                    },
                );
                assert forall|i: int| 0 <= i < changed.len() implies target_below(#[trigger] changed[i], count) by {
                    assert(target_below(links[i], count));
                }
                lemma_with_source_links_consistent(dialogue, source, changed);
            },
            DialogueStructureAction::RemoveLink { source, position } => {
                let links = source_links(dialogue, source)->Ok_0;
                let count = nodes_for_edit(node_list(dialogue, expected_target_kind(source)))->Ok_0.len() as int;
                lemma_source_links_within(dialogue, source);
                let rest = links.remove(position as int);
                assert forall|i: int| 0 <= i < rest.len() implies target_below(#[trigger] rest[i], count) by {
                    if i < position {
                        assert(rest[i] == links[i]);
                    } else {
                        assert(rest[i] == links[i + 1]);
                    }
                }
                lemma_with_source_links_consistent(dialogue, source, rest);
            },
        }
    }
}

/// Replacing the links of a source whose links can be had: the source then
/// has exactly those links, and replacing them again forgets the first
/// replacement.
proof fn lemma_source_links_replaced(
    dialogue: DialogueView,
    source: Option<DialogueNodeRef>,
    first: Seq<LinkView>,
    second: Seq<LinkView>,
)
    requires
        source_links(dialogue, source) is Ok,
    ensures
        source_links(with_source_links(dialogue, source, first), source) == Ok::<
            Seq<LinkView>,
            EditError,
        >(first),
        with_source_links(with_source_links(dialogue, source, first), source, second)
            == with_source_links(dialogue, source, second),
{
    match source {
        None => {},
        Some(node) => {
            let nodes = node_list(dialogue, node.kind)->Nodes_0;
            assert(nodes.update(node.index as int, LinkListView::Links(first)).update(
                node.index as int,
                LinkListView::Links(second),
            ) =~= nodes.update(node.index as int, LinkListView::Links(second)));
        },
    }
}

/// Removing a link takes out exactly the link at `position` among those that
/// leave `source`, and is refused only where the dialogue is no DLG, the
/// source's links cannot be had or there is no link at that position: the
/// links before it keep their places, those after it move down by one, and
/// every other list of the dialogue is unchanged.
pub proof fn law_remove_link_takes_out_that_link(
    dialogue: DialogueView,
    file_type: Seq<char>,
    source: Option<DialogueNodeRef>,
    position: usize,
)
    ensures
        spec_edit_dialogue(dialogue, file_type, DialogueStructureAction::RemoveLink { source, position })
            is Ok == (file_type == "DLG "@ && source_links(dialogue, source) is Ok && position
            < source_links(dialogue, source)->Ok_0.len()),
        spec_edit_dialogue(dialogue, file_type, DialogueStructureAction::RemoveLink { source, position })
            matches Ok(after) ==> ({
            let links = source_links(dialogue, source)->Ok_0;
            &&& source_links(after, source) matches Ok(rest) && rest.len() == links.len() - 1
                && (forall|i: int| 0 <= i < position ==> #[trigger] rest[i] == links[i]) && (forall|
                i: int,
            |
                position <= i < rest.len() ==> #[trigger] rest[i] == links[i + 1])
            &&& after == with_source_links(dialogue, source, source_links(after, source)->Ok_0)
        }),
{
    if spec_edit_dialogue(dialogue, file_type, DialogueStructureAction::RemoveLink { source, position })
        is Ok {
        let links = source_links(dialogue, source)->Ok_0;
        lemma_source_links_replaced(
            dialogue,
            source,
            links.remove(position as int),
            links.remove(position as int),
        );
    }
}

/// Adding a link puts a link to `target`, without scripts, after the links
/// that already leave `source`, which keep their places; every other list of
/// the dialogue is unchanged.
pub proof fn law_add_link_appends_to_source(
    dialogue: DialogueView,
    file_type: Seq<char>,
    source: Option<DialogueNodeRef>,
    target: DialogueNodeRef,
)
    ensures
        spec_edit_dialogue(dialogue, file_type, DialogueStructureAction::AddLink { source, target })
            matches Ok(after) ==> ({
            let links = source_links(dialogue, source)->Ok_0;
            &&& target.kind == expected_target_kind(source)
            &&& source_links(after, source) matches Ok(grown) && grown.len() == links.len() + 1
                && (forall|i: int| 0 <= i < links.len() ==> #[trigger] grown[i] == links[i])
                && grown[links.len() as int] == (LinkView {
                target: Some(target.index),
                condition: None,
                action: None,
            })
            &&& after == with_source_links(dialogue, source, source_links(after, source)->Ok_0)
        }),
{
    if spec_edit_dialogue(dialogue, file_type, DialogueStructureAction::AddLink { source, target }) is Ok {
        let links = source_links(dialogue, source)->Ok_0;
        let grown = links.push(LinkView { target: Some(target.index), condition: None, action: None });
        lemma_source_links_replaced(dialogue, source, grown, grown);
    }
}

/// Setting a link's scripts changes only the link at `position` among those
/// that leave `source`: it keeps its target, every other link and every
/// other list of the dialogue is unchanged.
pub proof fn law_set_link_scripts_changes_only_that_link(
    dialogue: DialogueView,
    file_type: Seq<char>,
    source: Option<DialogueNodeRef>,
    position: usize,
    condition_script: Option<String>,
    action_script: Option<String>,
)
    ensures
        spec_edit_dialogue(
            dialogue,
            file_type,
            DialogueStructureAction::SetLinkScripts { source, position, condition_script, action_script },
        ) matches Ok(after) ==> ({
            let links = source_links(dialogue, source)->Ok_0;
            &&& source_links(after, source) matches Ok(changed) && changed.len() == links.len()
                && position < links.len() && changed[position as int].target == links[position as int].target
                && (forall|i: int| 0 <= i < links.len() && i != position ==> #[trigger] changed[i] == links[i])
            &&& after == with_source_links(dialogue, source, source_links(after, source)->Ok_0)
        }),
{
    if spec_edit_dialogue(
        dialogue,
        file_type,
        DialogueStructureAction::SetLinkScripts { source, position, condition_script, action_script },
    ) is Ok {
        let links = source_links(dialogue, source)->Ok_0;
        let changed = links.update(
            position as int,
            LinkView {
                target: links[position as int].target,
                condition: trimmed_script(condition_script),
                action: trimmed_script(action_script),
            },
        );
        lemma_source_links_replaced(dialogue, source, changed, changed);
    }
}

} // verus!
