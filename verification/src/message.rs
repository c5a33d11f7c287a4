//! The messages members of the network exchange: interface traffic, dataset
//! traffic, router traffic, and errors.

use vstd::prelude::*;

use crate::dataset::{AbsoluteDatasetPath, AbsPathV, DatasetPath, PathV};
use crate::dataset_data::{data_seq_view, DataV, DatasetData};
use crate::directory::{DirectoryEntry, DirEntryV};
use crate::id::SpiderId2048;
use crate::relation::{Relation, RelV};
use crate::text::strs_view;
use crate::ui::input::{InputV, UiInput};
use crate::ui::page::{PageV, UiPage};
use crate::ui::update::{UiElementUpdate, UpdV};

verus! {

broadcast use vstd::std_specs::vec::group_vec_axioms;

/// A framed chunk on the wire: the frame is the JSON encoding of an object
/// holding these bytes.
pub struct Frame {
    /// The payload bytes.
    pub data: Vec<u8>,
}

/// The reply to a key request: the listening base's id and human-readable
/// name.
pub struct KeyRequest {
    /// The id of the queried base.
    pub key: SpiderId2048,
    /// The base's name.
    pub name: String,
}

/// The mathematical value of a key-request reply.
pub struct KeyRequestV {
    pub key: Seq<u8>,
    pub name: Seq<char>,
}

impl View for KeyRequest {
    type V = KeyRequestV;

    open spec fn view(&self) -> KeyRequestV {
        KeyRequestV { key: self.key@, name: self.name@ }
    }
}

/// Router traffic: authorization, events, the directory, and chord
/// addresses.
pub enum RouterMessage {
    /// The connection is pending; nothing is processed until approval.
    Pending,
    /// A code the connecting member presents to approve itself.
    ApprovalCode(String),
    /// The connection is approved.
    Approved,
    /// The connection is denied and will close.
    Denied,
    /// Send an event with a name, extra recipients, and a payload.
    SendEvent(String, Vec<Relation>, DatasetData),
    /// A delivered event: its name, its sender, and its payload.
    Event(String, Relation, DatasetData),
    /// Ask to receive events with the given name.
    Subscribe(String),
    /// Stop receiving events with the given name.
    Unsubscribe(String),
    /// Ask to be told of directory changes.
    SubscribeDir,
    /// Stop being told of directory changes.
    UnsubscribeDir,
    /// A directory entry changed; this is the new entry.
    AddIdentity(DirectoryEntry),
    /// A directory entry was removed; this is its relation.
    RemoveIdentity(Relation),
    /// The sender asks the receiver to update one of the sender's identity
    /// properties.
    SetIdentityProperty(String, String),
    /// Ask for the most recent chord addresses, up to the given count.
    SubscribeChord(usize),
    /// Stop receiving chord addresses.
    UnsubscribeChord,
    /// The most recent chord addresses.
    ChordAddrs(Vec<String>),
}

/// The mathematical value of a router message.
pub enum RouterMsgV {
    Pending,
    ApprovalCode(Seq<char>),
    Approved,
    Denied,
    SendEvent(Seq<char>, Seq<RelV>, DataV),
    Event(Seq<char>, RelV, DataV),
    Subscribe(Seq<char>),
    Unsubscribe(Seq<char>),
    SubscribeDir,
    UnsubscribeDir,
    AddIdentity(DirEntryV),
    RemoveIdentity(RelV),
    SetIdentityProperty(Seq<char>, Seq<char>),
    SubscribeChord(usize),
    UnsubscribeChord,
    ChordAddrs(Seq<Seq<char>>),
}

/// The mathematical values of a vector of relations.
pub open spec fn rels_view(s: Seq<Relation>) -> Seq<RelV> {
    Seq::new(s.len(), |i: int| s[i]@)
}

impl View for RouterMessage {
    type V = RouterMsgV;

    open spec fn view(&self) -> RouterMsgV {
        match self {
            RouterMessage::Pending => RouterMsgV::Pending,
            RouterMessage::ApprovalCode(c) => RouterMsgV::ApprovalCode(c@),
            RouterMessage::Approved => RouterMsgV::Approved,
            RouterMessage::Denied => RouterMsgV::Denied,
            RouterMessage::SendEvent(n, rs, d) => RouterMsgV::SendEvent(n@, rels_view(rs@), d@),
            RouterMessage::Event(n, r, d) => RouterMsgV::Event(n@, r@, d@),
            RouterMessage::Subscribe(n) => RouterMsgV::Subscribe(n@),
            RouterMessage::Unsubscribe(n) => RouterMsgV::Unsubscribe(n@),
            RouterMessage::SubscribeDir => RouterMsgV::SubscribeDir,
            RouterMessage::UnsubscribeDir => RouterMsgV::UnsubscribeDir,
            RouterMessage::AddIdentity(e) => RouterMsgV::AddIdentity(e@),
            RouterMessage::RemoveIdentity(r) => RouterMsgV::RemoveIdentity(r@),
            RouterMessage::SetIdentityProperty(k, v) => RouterMsgV::SetIdentityProperty(k@, v@),
            RouterMessage::SubscribeChord(n) => RouterMsgV::SubscribeChord(*n),
            RouterMessage::UnsubscribeChord => RouterMsgV::UnsubscribeChord,
            RouterMessage::ChordAddrs(a) => RouterMsgV::ChordAddrs(strs_view(a@)),
        }
    }
}

/// Copy a vector of relations.
#[verifier::loop_isolation(false)]
pub fn rels_clone(v: &Vec<Relation>) -> (r: Vec<Relation>)
    ensures
        rels_view(r@) == rels_view(v@),
        r@.len() == v@.len(),
{
    let mut out: Vec<Relation> = Vec::new();
    let mut i: usize = 0;
    while i < v.len()
        invariant
            i <= v.len(),
            out@.len() == i,
            forall|j: int| 0 <= j < i ==> out@[j]@ == v@[j]@,
        decreases v.len() - i,
    {
        out.push(v[i].clone());
        i = i + 1;
    }
    proof {
        assert(rels_view(out@) =~= rels_view(v@));
    }
    out
}

/// Copy a vector of dataset entries.
#[verifier::loop_isolation(false)]
pub fn data_clone(v: &Vec<DatasetData>) -> (r: Vec<DatasetData>)
    ensures
        data_seq_view(r@) == data_seq_view(v@),
        r@.len() == v@.len(),
{
    let mut out: Vec<DatasetData> = Vec::new();
    let mut i: usize = 0;
    while i < v.len()
        invariant
            i <= v.len(),
            out@.len() == i,
            forall|j: int| 0 <= j < i ==> out@[j]@ == v@[j]@,
        decreases v.len() - i,
    {
        out.push(v[i].clone());
        i = i + 1;
    }
    proof {
        crate::dataset_data::lemma_data_seq_view(out@);
        crate::dataset_data::lemma_data_seq_view(v@);
        assert(data_seq_view(out@) =~= data_seq_view(v@));
    }
    out
}

impl Clone for RouterMessage {
    fn clone(&self) -> (r: Self)
        ensures
            r@ == self@,
    {
        match self {
            RouterMessage::Pending => RouterMessage::Pending,
            RouterMessage::ApprovalCode(c) => RouterMessage::ApprovalCode(c.clone()),
            RouterMessage::Approved => RouterMessage::Approved,
            RouterMessage::Denied => RouterMessage::Denied,
            RouterMessage::SendEvent(n, rs, d) => RouterMessage::SendEvent(
                n.clone(),
                rels_clone(rs),
                d.clone(),
            ),
            RouterMessage::Event(n, r, d) => RouterMessage::Event(n.clone(), r.clone(), d.clone()),
            RouterMessage::Subscribe(n) => RouterMessage::Subscribe(n.clone()),
            RouterMessage::Unsubscribe(n) => RouterMessage::Unsubscribe(n.clone()),
            RouterMessage::SubscribeDir => RouterMessage::SubscribeDir,
            RouterMessage::UnsubscribeDir => RouterMessage::UnsubscribeDir,
            RouterMessage::AddIdentity(e) => RouterMessage::AddIdentity(e.clone()),
            RouterMessage::RemoveIdentity(r) => RouterMessage::RemoveIdentity(r.clone()),
            RouterMessage::SetIdentityProperty(k, v) => RouterMessage::SetIdentityProperty(
                k.clone(),
                v.clone(),
            ),
            RouterMessage::SubscribeChord(n) => RouterMessage::SubscribeChord(*n),
            RouterMessage::UnsubscribeChord => RouterMessage::UnsubscribeChord,
            RouterMessage::ChordAddrs(a) => RouterMessage::ChordAddrs(
                crate::text::strings_clone(a),
            ),
        }
    }
}

/// Dataset traffic: subscriptions and the operations on a dataset.
pub enum DatasetMessage {
    /// Ask to be told of changes to the named dataset.
    Subscribe {
        /// The dataset to watch.
        path: DatasetPath,
    },
    /// Append one entry.
    Append {
        /// The dataset to change.
        path: DatasetPath,
        /// The entry to append.
        data: DatasetData,
    },
    /// Append a batch of entries.
    Extend {
        /// The dataset to change.
        path: DatasetPath,
        /// The entries to append.
        data: Vec<DatasetData>,
    },
    /// Set the entry at a position, padding with nulls past the end.
    SetElement {
        /// The dataset to change.
        path: DatasetPath,
        /// The entry to assign.
        data: DatasetData,
        /// The position to assign.
        id: usize,
    },
    /// Set the entries from a position on, padding with nulls past the end.
    SetElements {
        /// The dataset to change.
        path: DatasetPath,
        /// The entries to assign.
        data: Vec<DatasetData>,
        /// The first position to assign.
        id: usize,
    },
    /// Remove the entry at a position, shifting later entries down.
    DeleteElement {
        /// The dataset to change.
        path: DatasetPath,
        /// The position to remove.
        id: usize,
    },
    /// Remove every entry.
    Empty {
        /// The dataset to clear.
        path: DatasetPath,
    },
    /// The current state of a dataset, sent to a new subscriber and after
    /// each change.
    Dataset {
        /// The dataset.
        path: DatasetPath,
        /// Its entries.
        data: Vec<DatasetData>,
    },
}

/// The mathematical value of a dataset message.
pub enum DatasetMsgV {
    Subscribe { path: PathV },
    Append { path: PathV, data: DataV },
    Extend { path: PathV, data: Seq<DataV> },
    SetElement { path: PathV, data: DataV, id: usize },
    SetElements { path: PathV, data: Seq<DataV>, id: usize },
    DeleteElement { path: PathV, id: usize },
    Empty { path: PathV },
    Dataset { path: PathV, data: Seq<DataV> },
}

impl View for DatasetMessage {
    type V = DatasetMsgV;

    open spec fn view(&self) -> DatasetMsgV {
        match self {
            DatasetMessage::Subscribe { path } => DatasetMsgV::Subscribe { path: path@ },
            DatasetMessage::Append { path, data } => DatasetMsgV::Append {
                path: path@,
                data: data@,
            },
            DatasetMessage::Extend { path, data } => DatasetMsgV::Extend {
                path: path@,
                data: data_seq_view(data@),
            },
            DatasetMessage::SetElement { path, data, id } => DatasetMsgV::SetElement {
                path: path@,
                data: data@,
                id: *id,
            },
            DatasetMessage::SetElements { path, data, id } => DatasetMsgV::SetElements {
                path: path@,
                data: data_seq_view(data@),
                id: *id,
            },
            DatasetMessage::DeleteElement { path, id } => DatasetMsgV::DeleteElement {
                path: path@,
                id: *id,
            },
            DatasetMessage::Empty { path } => DatasetMsgV::Empty { path: path@ },
            DatasetMessage::Dataset { path, data } => DatasetMsgV::Dataset {
                path: path@,
                data: data_seq_view(data@),
            },
        }
    }
}

impl Clone for DatasetMessage {
    fn clone(&self) -> (r: Self)
        ensures
            r@ == self@,
    {
        match self {
            DatasetMessage::Subscribe { path } => DatasetMessage::Subscribe { path: path.clone() },
            DatasetMessage::Append { path, data } => DatasetMessage::Append {
                path: path.clone(),
                data: data.clone(),
            },
            DatasetMessage::Extend { path, data } => DatasetMessage::Extend {
                path: path.clone(),
                data: data_clone(data),
            },
            DatasetMessage::SetElement { path, data, id } => DatasetMessage::SetElement {
                path: path.clone(),
                data: data.clone(),
                id: *id,
            },
            DatasetMessage::SetElements { path, data, id } => DatasetMessage::SetElements {
                path: path.clone(),
                data: data_clone(data),
                id: *id,
            },
            DatasetMessage::DeleteElement { path, id } => DatasetMessage::DeleteElement {
                path: path.clone(),
                id: *id,
            },
            DatasetMessage::Empty { path } => DatasetMessage::Empty { path: path.clone() },
            DatasetMessage::Dataset { path, data } => DatasetMessage::Dataset {
                path: path.clone(),
                data: data_clone(data),
            },
        }
    }
}

/// Interface traffic: page installation, updates, datasets a page depends
/// on, and user input.
pub enum UiMessage {
    /// Subscribe as an interface peripheral: current pages and their
    /// dataset rows follow, then every later change.
    Subscribe,
    /// The current pages.
    Pages(Vec<UiPage>),
    /// Ask for the page owned by the given id.
    GetPage(SpiderId2048),
    /// One page, answering a request.
    Page(UiPage),
    /// Updates to apply to the page owned by the given id.
    UpdateElementsFor(SpiderId2048, Vec<UiElementUpdate>),
    /// A dataset that some page depends on, with its entries.
    Dataset(AbsoluteDatasetPath, Vec<DatasetData>),
    /// User input for the page owned by the given id: the element's id, the
    /// dataset rows on the way to it, and the input.
    InputFor(SpiderId2048, String, Vec<usize>, UiInput),
    /// The sending peripheral installs its page.
    SetPage(UiPage),
    /// The sending peripheral removes its page.
    ClearPage,
    /// The sending peripheral updates parts of its page.
    UpdateElements(Vec<UiElementUpdate>),
    /// User input delivered to the peripheral that owns the page.
    Input(String, Vec<usize>, UiInput),
}

/// The mathematical value of an interface message.
pub enum UiMsgV {
    Subscribe,
    Pages(Seq<PageV>),
    GetPage(Seq<u8>),
    Page(PageV),
    UpdateElementsFor(Seq<u8>, Seq<UpdV>),
    Dataset(AbsPathV, Seq<DataV>),
    InputFor(Seq<u8>, Seq<char>, Seq<usize>, InputV),
    SetPage(PageV),
    ClearPage,
    UpdateElements(Seq<UpdV>),
    Input(Seq<char>, Seq<usize>, InputV),
}

/// The mathematical values of a vector of pages.
pub open spec fn ui_pages_view(s: Seq<UiPage>) -> Seq<PageV> {
    Seq::new(s.len(), |i: int| s[i]@)
}

/// The mathematical values of a vector of updates.
pub open spec fn upds_view(s: Seq<UiElementUpdate>) -> Seq<UpdV> {
    Seq::new(s.len(), |i: int| s[i]@)
}

impl View for UiMessage {
    type V = UiMsgV;

    open spec fn view(&self) -> UiMsgV {
        match self {
            UiMessage::Subscribe => UiMsgV::Subscribe,
            UiMessage::Pages(ps) => UiMsgV::Pages(ui_pages_view(ps@)),
            UiMessage::GetPage(id) => UiMsgV::GetPage(id@),
            UiMessage::Page(p) => UiMsgV::Page(p@),
            UiMessage::UpdateElementsFor(id, us) => UiMsgV::UpdateElementsFor(id@, upds_view(us@)),
            UiMessage::Dataset(p, d) => UiMsgV::Dataset(p@, data_seq_view(d@)),
            UiMessage::InputFor(id, eid, rows, inp) => UiMsgV::InputFor(id@, eid@, rows@, inp@),
            UiMessage::SetPage(p) => UiMsgV::SetPage(p@),
            UiMessage::ClearPage => UiMsgV::ClearPage,
            UiMessage::UpdateElements(us) => UiMsgV::UpdateElements(upds_view(us@)),
            UiMessage::Input(eid, rows, inp) => UiMsgV::Input(eid@, rows@, inp@),
        }
    }
}

/// Copy a vector of pages.
#[verifier::loop_isolation(false)]
pub fn ui_pages_clone(v: &Vec<UiPage>) -> (r: Vec<UiPage>)
    ensures
        ui_pages_view(r@) == ui_pages_view(v@),
{
    let mut out: Vec<UiPage> = Vec::new();
    let mut i: usize = 0;
    while i < v.len()
        invariant
            i <= v.len(),
            out@.len() == i,
            forall|j: int| 0 <= j < i ==> out@[j]@ == v@[j]@,
        decreases v.len() - i,
    {
        out.push(v[i].clone());
        i = i + 1;
    }
    proof {
        assert(ui_pages_view(out@) =~= ui_pages_view(v@));
    }
    out
}

/// Copy a vector of updates.
#[verifier::loop_isolation(false)]
pub fn upds_clone(v: &Vec<UiElementUpdate>) -> (r: Vec<UiElementUpdate>)
    ensures
        upds_view(r@) == upds_view(v@),
{
    let mut out: Vec<UiElementUpdate> = Vec::new();
    let mut i: usize = 0;
    while i < v.len()
        invariant
            i <= v.len(),
            out@.len() == i,
            forall|j: int| 0 <= j < i ==> out@[j]@ == v@[j]@,
        decreases v.len() - i,
    {
        out.push(v[i].clone());
        i = i + 1;
    }
    proof {
        assert(upds_view(out@) =~= upds_view(v@));
    }
    out
}

/// Copy a vector of positions.
#[verifier::loop_isolation(false)]
pub fn usizes_clone(v: &Vec<usize>) -> (r: Vec<usize>)
    ensures
        r@ == v@,
{
    let mut out: Vec<usize> = Vec::new();
    let mut i: usize = 0;
    while i < v.len()
        invariant
            i <= v.len(),
            out@ == v@.subrange(0, i as int),
        decreases v.len() - i,
    {
        out.push(v[i]);
        i = i + 1;
    }
    proof {
        assert(out@ =~= v@);
    }
    out
}

impl Clone for UiMessage {
    fn clone(&self) -> (r: Self)
        ensures
            r@ == self@,
    {
        match self {
            UiMessage::Subscribe => UiMessage::Subscribe,
            UiMessage::Pages(ps) => UiMessage::Pages(ui_pages_clone(ps)),
            UiMessage::GetPage(id) => UiMessage::GetPage(id.clone()),
            UiMessage::Page(p) => UiMessage::Page(p.clone()),
            UiMessage::UpdateElementsFor(id, us) => UiMessage::UpdateElementsFor(
                id.clone(),
                upds_clone(us),
            ),
            UiMessage::Dataset(p, d) => UiMessage::Dataset(p.clone(), data_clone(d)),
            UiMessage::InputFor(id, eid, rows, inp) => UiMessage::InputFor(
                id.clone(),
                eid.clone(),
                usizes_clone(rows),
                inp.clone(),
            ),
            UiMessage::SetPage(p) => UiMessage::SetPage(p.clone()),
            UiMessage::ClearPage => UiMessage::ClearPage,
            UiMessage::UpdateElements(us) => UiMessage::UpdateElements(upds_clone(us)),
            UiMessage::Input(eid, rows, inp) => UiMessage::Input(
                eid.clone(),
                usizes_clone(rows),
                inp.clone(),
            ),
        }
    }
}

/// A message between two members of the network.
pub enum Message {
    /// Interface traffic.
    Ui(UiMessage),
    /// Dataset traffic.
    Dataset(DatasetMessage),
    /// Router traffic.
    Router(RouterMessage),
    /// An error report.
    Error(String),
}

/// The mathematical value of a message.
pub enum MessageV {
    Ui(UiMsgV),
    Dataset(DatasetMsgV),
    Router(RouterMsgV),
    Error(Seq<char>),
}

impl View for Message {
    type V = MessageV;

    open spec fn view(&self) -> MessageV {
        match self {
            Message::Ui(m) => MessageV::Ui(m@),
            Message::Dataset(m) => MessageV::Dataset(m@),
            Message::Router(m) => MessageV::Router(m@),
            Message::Error(s) => MessageV::Error(s@),
        }
    }
}

impl Clone for Message {
    fn clone(&self) -> (r: Self)
        ensures
            r@ == self@,
    {
        match self {
            Message::Ui(m) => Message::Ui(m.clone()),
            Message::Dataset(m) => Message::Dataset(m.clone()),
            Message::Router(m) => Message::Router(m.clone()),
            Message::Error(s) => Message::Error(s.clone()),
        }
    }
}

/// The mathematical values of a vector of messages.
pub open spec fn msgs_view(s: Seq<Message>) -> Seq<MessageV> {
    Seq::new(s.len(), |i: int| s[i]@)
}

} // verus!
