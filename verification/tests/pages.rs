// Tests of the page engine: elements, content, change tracking, update
// application, two managers converging, and the binding counts.

use spider::dataset::AbsoluteDatasetPath;
use spider::dataset_data::DatasetData;
use spider::id::SpiderId2048;
use spider::ui::content::{UiElementContent, UiElementContentPart};
use spider::ui::element::{UiElement, UiElementKind};
use spider::ui::manager::{ElemEdit, UiPageManager};
use spider::ui::page::UiPage;
use spider::ui::page_list::UiPageList;
use spider::ui::path::UiPath;
use spider::ui::summary::UpdateSummary;
use spider::message::UiMessage;
use spider::relation::{Relation, Role};
use spider::ui::input::UiInput;
use spider::ui::template::{template_item, template_item_count};
use spider::ui_state::{SettingAction, UiAction, UiDatasetCounts, UiState, UiSubscriptionAction};

fn sample_id(fill: u8) -> SpiderId2048 {
    SpiderId2048::from_bytes(vec![fill; 294])
}

fn metrics_path() -> AbsoluteDatasetPath {
    AbsoluteDatasetPath::new_public(vec![String::from("metrics")])
}

#[test]
fn element_kinds_pick_selectability() {
    assert!(UiElementKind::Button.selectable());
    assert!(UiElementKind::TextEntry.selectable());
    assert!(!UiElementKind::Text.selectable());
    let e = UiElement::new(UiElementKind::Button);
    assert!(e.selectable());
}

#[test]
fn variable_kinds_resolve_against_data() {
    let part = UiElementContentPart::Data(vec![String::from("kind")]);
    let kind = UiElementKind::Variable(part);
    let row = DatasetData::Table(vec![
        (String::from("kind"), DatasetData::String(String::from("Button"))),
    ]);
    let resolved = kind.resolve(&Some(&row));
    assert!(matches!(resolved, UiElementKind::Button));
}

#[test]
fn content_renders_text_and_references() {
    let mut content = UiElementContent::new_text(String::from("value: "));
    content.add_part(UiElementContentPart::Data(vec![String::from("count")]));
    assert_eq!(content.to_string(), "value: <count>");
    let row = DatasetData::Table(vec![(String::from("count"), DatasetData::Int(5))]);
    assert_eq!(content.resolve(&row), "value: 5");
}

#[test]
fn elements_compare_by_structure() {
    let mut a = UiElement::from_string(String::from("hello"));
    let b = UiElement::from_string(String::from("hello"));
    assert!(a == b);
    a.set_id(String::from("x"));
    assert!(a != b);
}

#[test]
fn managers_converge_after_an_edit() {
    let page = UiPage::new(sample_id(1), String::from("home"));
    let mut sender = UiPageManager::from_page(page.clone());
    let mut receiver = UiPageManager::from_page(page);
    let root = UiPath::root();
    assert!(sender.edit_element(&root, ElemEdit::SetKind(UiElementKind::Rows)));
    assert!(sender.edit_element(
        &root,
        ElemEdit::InsertChild(0, UiElement::from_string(String::from("one"))),
    ));
    let updates = sender.get_changes();
    assert!(updates.len() >= 1);
    let summary = receiver.apply_changes(updates);
    assert!(summary.changed());
    assert!(sender.get_page().root() == receiver.get_page().root());
}

#[test]
fn a_minimal_edit_travels_as_one_update() {
    let page = UiPage::new(sample_id(1), String::from("home"));
    let mut sender = UiPageManager::from_page(page.clone());
    let mut receiver = UiPageManager::from_page(page);
    let root = UiPath::root();
    sender.edit_element(
        &root,
        ElemEdit::InsertChild(0, UiElement::from_string(String::from("one"))),
    );
    sender.edit_element(
        &root,
        ElemEdit::InsertChild(1, UiElement::from_string(String::from("two"))),
    );
    receiver.apply_changes(sender.get_changes());
    assert!(sender.get_page().root() == receiver.get_page().root());
    // now change one child's text alone
    let mut child_path = UiPath::root();
    child_path.append_child(1);
    sender.edit_element(&child_path, ElemEdit::SetText(String::from("TWO")));
    let updates = sender.get_changes();
    assert_eq!(updates.len(), 1);
    assert!(updates[0].path().iter() == child_path.iter());
    assert!(updates[0].children().is_none());
    receiver.apply_changes(updates);
    assert!(sender.get_page().root() == receiver.get_page().root());
}

#[test]
fn update_application_reports_no_change_for_equal_bodies() {
    let page = UiPage::new(sample_id(1), String::from("home"));
    let mut sender = UiPageManager::from_page(page.clone());
    let mut receiver = UiPageManager::from_page(page);
    let root = UiPath::root();
    // mark the root changed without changing what a viewer sees
    sender.edit_element(&root, ElemEdit::SetKind(UiElementKind::Text));
    let updates = sender.get_changes();
    assert_eq!(updates.len(), 1);
    let summary = receiver.apply_changes(updates);
    assert!(!summary.changed());
}

#[test]
fn the_id_index_follows_applied_updates() {
    let page = UiPage::new(sample_id(1), String::from("home"));
    let mut mgr = UiPageManager::from_page(page);
    let root = UiPath::root();
    let mut named = UiElement::from_string(String::from("row"));
    named.set_id(String::from("status"));
    mgr.edit_element(&root, ElemEdit::InsertChild(0, named));
    mgr.get_changes();
    let found = mgr.get_by_id("status").expect("indexed element");
    assert_eq!(found.text(), "row");
    assert!(mgr.get_by_id("missing").is_none());
}

#[test]
fn dataset_bindings_move_with_updates() {
    let page = UiPage::new(sample_id(1), String::from("home"));
    let mut sender = UiPageManager::from_page(page.clone());
    let mut receiver = UiPageManager::from_page(page);
    let root = UiPath::root();
    let mut bound = UiElement::new(UiElementKind::Rows);
    bound.set_dataset(Some(metrics_path()));
    sender.edit_element(&root, ElemEdit::InsertChild(0, bound));
    let summary = receiver.apply_changes(sender.get_changes());
    assert!(summary.changed());
    let subs = summary.dataset_subscriptions();
    assert_eq!(subs.len(), 1);
    assert!(subs[0].0 == metrics_path());
    assert_eq!(subs[0].1, 1);
    // deleting it moves the count back
    sender.edit_element(&root, ElemEdit::DeleteChild(0));
    let summary = receiver.apply_changes(sender.get_changes());
    let subs = summary.dataset_subscriptions();
    assert_eq!(subs.len(), 1);
    assert_eq!(subs[0].1, -1);
    assert!(sender.get_page().root() == receiver.get_page().root());
}

#[test]
fn binding_counts_never_rest_at_zero() {
    let mut counts = UiDatasetCounts::new();
    let path = metrics_path();
    assert_eq!(counts.apply_delta(&path, 2), UiSubscriptionAction::Subscribe);
    assert_eq!(counts.apply_delta(&path, -1), UiSubscriptionAction::Keep);
    assert_eq!(counts.apply_delta(&path, -1), UiSubscriptionAction::Unsubscribe);
    assert_eq!(counts.rows.len(), 0);
    assert_eq!(counts.apply_delta(&path, -1), UiSubscriptionAction::Keep);
    assert_eq!(counts.rows.len(), 0);
}

#[test]
fn page_lists_keep_order_and_replace_in_place() {
    let mut list = UiPageList::new();
    let a = UiPage::new(sample_id(1), String::from("a"));
    let b = UiPage::new(sample_id(2), String::from("b"));
    assert!(list.upsert_page(a).is_none());
    assert!(list.upsert_page(b).is_none());
    let a2 = UiPage::new(sample_id(1), String::from("a2"));
    let old = list.upsert_page(a2).expect("replaced");
    assert_eq!(old.name(), "a");
    let pages = list.clone_page_vec();
    assert_eq!(pages.len(), 2);
    assert_eq!(pages[0].name(), "a2");
    assert_eq!(pages[1].name(), "b");
    list.select_next_page();
    assert_eq!(list.selected_index(), 1);
    list.select_next_page();
    assert_eq!(list.selected_index(), 1);
    list.select_prev_page();
    assert_eq!(list.selected_index(), 0);
}

#[test]
fn datastore_subscriptions_fan_out() {
    let mut subs = spider::datastore::DatasetSubscriptions::new();
    let path = metrics_path();
    assert!(subs.subscribe_ui(&path));
    assert!(!subs.subscribe_ui(&path));
    subs.subscribe_peripheral(&path, &sample_id(5));
    let (ui, rels) = subs.recipients(&path);
    assert!(ui);
    assert_eq!(rels.len(), 1);
    assert!(rels[0].is_peripheral());
    subs.unsubscribe_ui(&path);
    let (ui, rels) = subs.recipients(&path);
    assert!(!ui);
    assert_eq!(rels.len(), 1);
}

#[test]
fn settings_registry_rows_track_positions() {
    let mut registry = spider::ui_state::SettingsRegistry::new();
    let (pos, is_new, new_header) = registry.upsert(
        String::from("System"),
        String::from("Name:"),
        spider::ui_state::SettingAction::SetName,
    );
    assert_eq!((pos, is_new, new_header), (0, true, true));
    let (pos, is_new, _) = registry.upsert(
        String::from("System"),
        String::from("Exit!"),
        spider::ui_state::SettingAction::Exit,
    );
    assert_eq!((pos, is_new), (1, true));
    let (pos, is_new, _) = registry.upsert(
        String::from("System"),
        String::from("Name:"),
        spider::ui_state::SettingAction::SetName,
    );
    assert_eq!((pos, is_new), (0, false));
    let (title, action) = registry.lookup(&String::from("System"), 1).expect("row");
    assert_eq!(title, "Exit!");
    assert!(matches!(action, spider::ui_state::SettingAction::Exit));
    assert_eq!(registry.remove(&String::from("System"), &String::from("Name:")), Some(0));
    let (title, _) = registry.lookup(&String::from("System"), 0).expect("row");
    assert_eq!(title, "Exit!");
}

#[test]
fn summaries_count_subtree_bindings() {
    let mut summary = UpdateSummary::new();
    let mut parent = UiElement::new(UiElementKind::Rows);
    let mut child = UiElement::new(UiElementKind::Text);
    child.set_dataset(Some(metrics_path()));
    parent.append_child(child);
    parent.set_dataset(Some(metrics_path()));
    summary.add(&parent);
    let subs = summary.dataset_subscriptions();
    assert_eq!(subs.len(), 1);
    assert_eq!(subs[0].1, 2);
}

#[test]
fn keyfile_holds_its_parts() {
    let keyfile = spider::keyfile::Keyfile::new(sample_id(1), Some(String::from("c0de")));
    assert!(keyfile.id == sample_id(1));
    assert_eq!(keyfile.permission_code, Some(String::from("c0de")));
}

#[test]
fn replacing_a_page_drops_recorded_changes() {
    let page = UiPage::new(sample_id(1), String::from("home"));
    let mut mgr = UiPageManager::from_page(page.clone());
    let root = UiPath::root();
    mgr.edit_element(&root, ElemEdit::SetText(String::from("stale")));
    let replacement = UiPage::new(sample_id(1), String::from("fresh"));
    let old = mgr.set_page(replacement);
    assert_eq!(old.name(), "home");
    assert_eq!(mgr.get_changes().len(), 0);
}

#[test]
fn ui_watch_replay_happens_once() {
    let mut subs = spider::datastore::DatasetSubscriptions::new();
    let path = metrics_path();
    subs.subscribe_peripheral(&path, &sample_id(5));
    assert!(subs.subscribe_ui(&path));
    assert!(!subs.subscribe_ui(&path));
    subs.unsubscribe_ui(&path);
    assert!(subs.subscribe_ui(&path));
}

#[test]
fn settings_lookup_misses_are_real() {
    let mut registry = spider::ui_state::SettingsRegistry::new();
    registry.upsert(
        String::from("System"),
        String::from("Exit!"),
        spider::ui_state::SettingAction::Exit,
    );
    assert!(registry.lookup(&String::from("System"), 1).is_none());
    assert!(registry.lookup(&String::from("Absent"), 0).is_none());
    assert_eq!(registry.remove(&String::from("System"), &String::from("Absent")), None);
    assert_eq!(registry.remove(&String::from("Absent"), &String::from("Exit!")), None);
}

#[test]
fn dispatcher_guards_against_peers() {
    let mut engine = UiState::new(sample_id(0));
    let peer = Relation { role: Role::Peer, id: sample_id(2) };
    let acts = engine.handle_ui_message(&peer, spider::message::UiMessage::Subscribe);
    assert_eq!(acts.len(), 0);
    assert_eq!(engine.subscribers.len(), 0);
}

#[test]
fn dispatcher_replies_to_subscribers() {
    let mut engine = UiState::new(sample_id(0));
    let peripheral = Relation { role: Role::Peripheral, id: sample_id(2) };
    let page = UiPage::new(sample_id(3), String::from("remote"));
    let owner = Relation { role: Role::Peripheral, id: sample_id(3) };
    let acts = engine.handle_ui_message(&owner, UiMessage::SetPage(page));
    assert!(matches!(&acts[0], UiAction::Multicast(_, UiMessage::Page(_))));
    let acts = engine.handle_ui_message(&peripheral, UiMessage::Subscribe);
    assert_eq!(engine.subscribers.len(), 1);
    assert!(matches!(&acts[0], UiAction::Send(_, UiMessage::Pages(ps)) if ps.len() == 1));
    let acts = engine.handle_ui_message(&peripheral, UiMessage::GetPage(sample_id(3)));
    assert_eq!(acts.len(), 1);
    assert!(matches!(&acts[0], UiAction::Send(_, UiMessage::Page(p)) if p.name() == "remote"));
    let acts = engine.handle_ui_message(&peripheral, UiMessage::GetPage(sample_id(9)));
    assert_eq!(acts.len(), 0);
}

#[test]
fn dispatcher_routes_settings_input() {
    let mut engine = UiState::new(sample_id(0));
    engine.registry.upsert(
        String::from("System"),
        String::from("Exit!"),
        SettingAction::Exit,
    );
    let operator = Relation { role: Role::Peripheral, id: sample_id(2) };
    let acts = engine.handle_ui_message(
        &operator,
        UiMessage::InputFor(sample_id(0), String::from("System0"), vec![0], UiInput::Click),
    );
    assert_eq!(acts.len(), 1);
    assert!(matches!(
        &acts[0],
        UiAction::SettingTriggered(SettingAction::Exit, title, 0, UiInput::Click) if title == "Exit!"
    ));
    // input for another peripheral's page is forwarded to it
    let acts = engine.handle_ui_message(
        &operator,
        UiMessage::InputFor(sample_id(7), String::from("x1"), vec![0], UiInput::Click),
    );
    assert_eq!(acts.len(), 1);
    assert!(matches!(&acts[0], UiAction::Send(to, UiMessage::Input(..)) if to.id == sample_id(7)));
}

#[test]
fn templated_children_expand_per_row() {
    let mut parent = UiElement::from_string(String::from("head"));
    parent.set_dataset(Some(metrics_path()));
    parent.append_child(UiElement::from_string(String::from("a")));
    parent.append_child(UiElement::from_string(String::from("b")));
    let rows = vec![DatasetData::Int(1), DatasetData::Int(2), DatasetData::Int(3)];
    // two template children over three rows: six items, children cycling fastest
    assert_eq!(template_item_count(&parent, Some(&rows)), 6);
    let (idx, child, datum) = template_item(&parent, None, Some(&rows), 3).expect("item");
    assert_eq!(idx, Some(1));
    assert_eq!(child.text(), "b");
    assert!(matches!(datum, Some(DatasetData::Int(2))));
    assert!(template_item(&parent, None, Some(&rows), 6).is_none());
    // the dataset's rows missing: one pass of the children, no row
    assert_eq!(template_item_count(&parent, None), 2);
    let (idx, child, datum) = template_item(&parent, None, None, 1).expect("item");
    assert_eq!(idx, Some(0));
    assert_eq!(child.text(), "b");
    assert!(datum.is_none());
    assert!(template_item(&parent, None, None, 2).is_none());
}

#[test]
fn untemplated_children_keep_the_ambient_row() {
    let mut plain = UiElement::from_string(String::from("head"));
    plain.append_child(UiElement::from_string(String::from("a")));
    let ambient = DatasetData::Int(9);
    assert_eq!(template_item_count(&plain, None), 1);
    let (idx, child, datum) = template_item(&plain, Some(&ambient), None, 0).expect("item");
    assert!(idx.is_none());
    assert_eq!(child.text(), "a");
    assert!(matches!(datum, Some(DatasetData::Int(9))));
    // an element without children expands to nothing
    let leaf = UiElement::from_string(String::from("leaf"));
    assert_eq!(template_item_count(&leaf, None), 0);
    assert!(template_item(&leaf, None, None, 0).is_none());
}
