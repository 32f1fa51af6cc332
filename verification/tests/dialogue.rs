use aurora_forge::dialogue::{
    DialogueGraph, DialogueLink, DialogueNodeKind, DialogueNodeRef, DialogueStructureAction, LinkList, NodeList,
};
use aurora_forge::error::EditError;

fn link(target: usize) -> DialogueLink {
    DialogueLink { target: Some(target), condition_script: None, action_script: None }
}

fn node(targets: &[usize]) -> LinkList {
    LinkList::Links(targets.iter().copied().map(link).collect())
}

fn entry(index: usize) -> DialogueNodeRef {
    DialogueNodeRef { kind: DialogueNodeKind::Entry, index }
}

fn reply(index: usize) -> DialogueNodeRef {
    DialogueNodeRef { kind: DialogueNodeKind::Reply, index }
}

fn targets(list: &LinkList) -> Vec<Option<usize>> {
    match list {
        LinkList::Links(links) => links.iter().map(|link| link.target).collect(),
        _ => panic!("a link list was expected"),
    }
}

fn nodes(list: &NodeList) -> &Vec<LinkList> {
    match list {
        NodeList::Nodes(nodes) => nodes,
        _ => panic!("a node list was expected"),
    }
}

#[test]
fn dialogue_structure_operations_retarget_links_without_leaving_broken_indexes() {
    let mut dialogue = DialogueGraph {
        entries: NodeList::Nodes(vec![node(&[0, 1])]),
        replies: NodeList::Nodes(vec![node(&[0]), node(&[0])]),
        starting: node(&[0]),
    };
    dialogue
        .edit("DLG ", &DialogueStructureAction::AddNode { node_kind: DialogueNodeKind::Entry })
        .expect("add entry");
    dialogue
        .edit("DLG ", &DialogueStructureAction::AddLink { source: None, target: entry(1) })
        .expect("add start link");
    dialogue
        .edit("DLG ", &DialogueStructureAction::RemoveNode { node: reply(0) })
        .expect("remove reply and retarget links");
    let entries = nodes(&dialogue.entries);
    assert_eq!(targets(&entries[0]), vec![Some(0)]);
    assert_eq!(nodes(&dialogue.replies).len(), 1);
    assert_eq!(targets(&dialogue.starting).len(), 2);
}

#[test]
fn dialogue_links_can_add_change_and_remove_trigger_scripts() {
    let mut dialogue = DialogueGraph {
        entries: NodeList::Nodes(vec![]),
        replies: NodeList::Nodes(vec![]),
        starting: node(&[0]),
    };
    dialogue
        .edit(
            "DLG ",
            &DialogueStructureAction::SetLinkScripts {
                source: None,
                position: 0,
                condition_script: Some("check_start".to_owned()),
                action_script: Some("begin_scene".to_owned()),
            },
        )
        .expect("associate trigger scripts");
    let LinkList::Links(starts) = &dialogue.starting else { panic!("StartingList must remain a list") };
    assert_eq!(starts[0].condition_script.as_deref(), Some("check_start"));
    assert_eq!(starts[0].action_script.as_deref(), Some("begin_scene"));
    dialogue
        .edit(
            "DLG ",
            &DialogueStructureAction::SetLinkScripts {
                source: None,
                position: 0,
                condition_script: None,
                action_script: Some("next_scene".to_owned()),
            },
        )
        .expect("remove condition and change action");
    let LinkList::Links(starts) = &dialogue.starting else { panic!("StartingList must remain a list") };
    assert_eq!(starts[0].condition_script, None);
    assert_eq!(starts[0].action_script.as_deref(), Some("next_scene"));
}

#[test]
fn removing_an_entry_retargets_starting_and_reply_links() {
    let mut dialogue = DialogueGraph {
        entries: NodeList::Nodes(vec![node(&[0]), node(&[]), node(&[0])]),
        replies: NodeList::Nodes(vec![node(&[1, 2, 0])]),
        starting: node(&[2, 1, 0]),
    };
    dialogue.edit("DLG ", &DialogueStructureAction::RemoveNode { node: entry(1) }).expect("remove entry");
    assert_eq!(nodes(&dialogue.entries).len(), 2);
    assert_eq!(targets(&dialogue.starting), vec![Some(1), Some(0)]);
    assert_eq!(targets(&nodes(&dialogue.replies)[0]), vec![Some(1), Some(0)]);
    assert_eq!(targets(&nodes(&dialogue.entries)[1]), vec![Some(0)]);
}

#[test]
fn refused_dialogue_edits_change_nothing() {
    let original = DialogueGraph {
        entries: NodeList::Nodes(vec![node(&[0])]),
        replies: NodeList::Nodes(vec![node(&[0])]),
        starting: node(&[0]),
    };
    let mut dialogue = original.clone();
    let add_node = DialogueStructureAction::AddNode { node_kind: DialogueNodeKind::Reply };
    assert_eq!(dialogue.edit("UTC ", &add_node), Err(EditError::DialogueFormatInvalid));
    let wrong_kind = DialogueStructureAction::AddLink { source: Some(entry(0)), target: entry(0) };
    assert_eq!(dialogue.edit("DLG ", &wrong_kind), Err(EditError::DialogueLinkKindInvalid));
    let far_target = DialogueStructureAction::AddLink { source: Some(entry(0)), target: reply(1) };
    assert_eq!(dialogue.edit("DLG ", &far_target), Err(EditError::DialogueLinkTargetNotFound));
    let far_source = DialogueStructureAction::AddLink { source: Some(reply(3)), target: entry(0) };
    assert_eq!(dialogue.edit("DLG ", &far_source), Err(EditError::DialogueNodeNotFound));
    let far_link = DialogueStructureAction::RemoveLink { source: None, position: 1 };
    assert_eq!(dialogue.edit("DLG ", &far_link), Err(EditError::DialogueLinkNotFound));
    let bad_script = DialogueStructureAction::SetLinkScripts {
        source: Some(reply(0)),
        position: 0,
        condition_script: Some("Not A ResRef".to_owned()),
        action_script: None,
    };
    assert_eq!(dialogue.edit("DLG ", &bad_script), Err(EditError::ResrefInvalid));
    let far_node = DialogueStructureAction::RemoveNode { node: entry(1) };
    assert_eq!(dialogue.edit("DLG ", &far_node), Err(EditError::DialogueNodeNotFound));
    assert_eq!(dialogue, original);
}

#[test]
fn dialogue_fields_of_the_wrong_shape_refuse_edits() {
    let mut dialogue = DialogueGraph {
        entries: NodeList::Missing,
        replies: NodeList::NotAList,
        starting: LinkList::Links(vec![DialogueLink { target: None, condition_script: None, action_script: None }]),
    };
    let add_entry = DialogueStructureAction::AddNode { node_kind: DialogueNodeKind::Entry };
    assert_eq!(dialogue.edit("DLG ", &add_entry), Err(EditError::GffFieldNotFound));
    let add_reply = DialogueStructureAction::AddNode { node_kind: DialogueNodeKind::Reply };
    assert_eq!(dialogue.edit("DLG ", &add_reply), Err(EditError::GffPathInvalid));
    let start = DialogueStructureAction::AddLink { source: None, target: entry(0) };
    assert_eq!(dialogue.edit("DLG ", &start), Err(EditError::DialogueNodeListNotFound));
    let to_reply = DialogueStructureAction::AddLink { source: Some(entry(0)), target: reply(0) };
    assert_eq!(dialogue.edit("DLG ", &to_reply), Err(EditError::DialogueNodeListInvalid));

    let mut broken = DialogueGraph {
        entries: NodeList::Nodes(vec![node(&[])]),
        replies: NodeList::Nodes(vec![LinkList::NotAList]),
        starting: LinkList::Links(vec![DialogueLink { target: None, condition_script: None, action_script: None }]),
    };
    let remove_entry = DialogueStructureAction::RemoveNode { node: entry(0) };
    assert_eq!(broken.edit("DLG ", &remove_entry), Err(EditError::DialogueLinkIndexInvalid));
    broken.starting = LinkList::Missing;
    assert_eq!(broken.edit("DLG ", &remove_entry), Err(EditError::DialogueLinkListInvalid));
    let remove_reply = DialogueStructureAction::RemoveNode { node: reply(0) };
    assert_eq!(broken.edit("DLG ", &remove_reply), Ok(()));
    assert_eq!(nodes(&broken.replies).len(), 0);
}

#[test]
fn blank_scripts_are_removed_and_scripts_are_trimmed() {
    let mut dialogue = DialogueGraph {
        entries: NodeList::Nodes(vec![node(&[0])]),
        replies: NodeList::Nodes(vec![node(&[])]),
        starting: node(&[0]),
    };
    let set = DialogueStructureAction::SetLinkScripts {
        source: Some(entry(0)),
        position: 0,
        condition_script: Some("  ".to_owned()),
        action_script: Some(" go_on ".to_owned()),
    };
    dialogue.edit("DLG ", &set).expect("set scripts");
    let LinkList::Links(links) = &nodes(&dialogue.entries)[0] else { panic!("links expected") };
    assert_eq!(links[0].condition_script, None);
    assert_eq!(links[0].action_script.as_deref(), Some("go_on"));
    assert_eq!(links[0].target, Some(0));
}
