//! The features a schema declares besides its types: replies, events,
//! observability, upgrade annotations, the action-to-effect table, the
//! fan-out targets of each effect, and the storage tables it owns.
use vstd::prelude::*;
use crate::name::{Name, name_texts};
use crate::upgrade::Upgrade;

verus! {

#[derive(Clone, Debug, PartialEq, Eq)]
pub enum Feature {
    Reply(Vec<Name>),
    Event(EventFeature),
    Observable(ObservableFeature),
    Upgrade(Upgrade),
    /// The closed mapping from action to the effect its handler produces.
    EffectTable(EffectTableFeature),
    /// Per effect, the outputs it fans out to.
    FanOutTargets(FanOutTargetsFeature),
    /// The storage tables the schema owns, with their layout types.
    StorageDescriptor(StorageDescriptorFeature),
}

pub open spec fn option_text(n: Option<Name>) -> Option<Seq<char>> {
    match n {
        Some(name) => Some(name.text()),
        None => None,
    }
}

#[derive(Clone, Debug, PartialEq, Eq)]
pub struct EventFeature {
    stream: Option<Name>,
    events: Vec<Name>,
}

impl EventFeature {
    pub closed spec fn stream_text(&self) -> Option<Seq<char>> {
        option_text(self.stream)
    }

    pub closed spec fn event_texts(&self) -> Seq<Seq<char>> {
        name_texts(self.events@)
    }

    pub fn new(stream: Option<Name>, events: Vec<Name>) -> (r: Self)
        ensures
            r.stream_text() == option_text(stream),
            r.event_texts() == name_texts(events@),
    {
        EventFeature { stream, events }
    }

    pub fn stream(&self) -> (r: Option<&Name>)
        ensures
            match self.stream_text() {
                Some(t) => r matches Some(n) && n.text() == t,
                None => r is None,
            },
    {
        match &self.stream {
            Some(n) => Some(n),
            None => None,
        }
    }

    pub fn events(&self) -> (r: &[Name])
        ensures
            name_texts(r@) == self.event_texts(),
    {
        self.events.as_slice()
    }
}

#[derive(Clone, Debug, PartialEq, Eq)]
pub struct ObservableFeature {
    filter: Option<String>,
    operation_event: Option<Name>,
    effect_event: Option<Name>,
}

impl ObservableFeature {
    pub closed spec fn filter_text(&self) -> Option<Seq<char>> {
        match self.filter {
            Some(f) => Some(f@),
            None => None,
        }
    }

    pub closed spec fn operation_event_text(&self) -> Option<Seq<char>> {
        option_text(self.operation_event)
    }

    pub closed spec fn effect_event_text(&self) -> Option<Seq<char>> {
        option_text(self.effect_event)
    }

    pub fn new(filter: Option<String>, operation_event: Option<Name>, effect_event: Option<Name>) -> (r: Self)
        ensures
            r.filter_text() == (match filter {
                Some(f) => Some(f@),
                None => None,
            }),
            r.operation_event_text() == option_text(operation_event),
            r.effect_event_text() == option_text(effect_event),
    {
        ObservableFeature { filter, operation_event, effect_event }
    }

    pub fn filter(&self) -> (r: Option<&str>)
        ensures
            match self.filter_text() {
                Some(t) => r matches Some(f) && f@ == t,
                None => r is None,
            },
    {
        match &self.filter {
            Some(f) => Some(f.as_str()),
            None => None,
        }
    }

    pub fn operation_event(&self) -> (r: Option<&Name>)
        ensures
            match self.operation_event_text() {
                Some(t) => r matches Some(n) && n.text() == t,
                None => r is None,
            },
    {
        match &self.operation_event {
            Some(n) => Some(n),
            None => None,
        }
    }

    pub fn effect_event(&self) -> (r: Option<&Name>)
        ensures
            match self.effect_event_text() {
                Some(t) => r matches Some(n) && n.text() == t,
                None => r is None,
            },
    {
        match &self.effect_event {
            Some(n) => Some(n),
            None => None,
        }
    }
}

/// `(action, effect)`: the effect type an action's handler produces.
#[derive(Clone, Debug, PartialEq, Eq)]
pub struct EffectTableEntry {
    action: Name,
    effect: Name,
}

impl EffectTableEntry {
    pub closed spec fn action_text(&self) -> Seq<char> {
        self.action.text()
    }

    pub closed spec fn effect_text(&self) -> Seq<char> {
        self.effect.text()
    }

    pub fn new(action: Name, effect: Name) -> (r: Self)
        ensures
            r.action_text() == action.text(),
            r.effect_text() == effect.text(),
    {
        EffectTableEntry { action, effect }
    }

    pub fn action(&self) -> (r: &Name)
        ensures
            r.text() == self.action_text(),
    {
        &self.action
    }

    pub fn effect(&self) -> (r: &Name)
        ensures
            r.text() == self.effect_text(),
    {
        &self.effect
    }
}

#[derive(Clone, Debug, PartialEq, Eq)]
pub struct EffectTableFeature {
    entries: Vec<EffectTableEntry>,
}

impl EffectTableFeature {
    pub closed spec fn entry_list(&self) -> Seq<EffectTableEntry> {
        self.entries@
    }

    pub fn new(entries: Vec<EffectTableEntry>) -> (r: Self)
        ensures
            r.entry_list() == entries@,
    {
        EffectTableFeature { entries }
    }

    pub fn entries(&self) -> (r: &[EffectTableEntry])
        ensures
            r@ == self.entry_list(),
    {
        self.entries.as_slice()
    }
}

/// One fan-out output: a wire reply, a call of another actor's method,
/// or a publication to a set of subscribers.
#[derive(Clone, Debug, PartialEq, Eq)]
pub enum FanOutOutputDeclaration {
    Reply { variant: Name },
    Actor { method_tag: Name, actor_type: Name, actor_method: Name },
    Subscribers { actor_type: Name, dispatch_method: Name },
}

#[derive(Clone, Debug, PartialEq, Eq)]
pub struct FanOutTargetsEntry {
    effect: Name,
    outputs: Vec<FanOutOutputDeclaration>,
}

impl FanOutTargetsEntry {
    pub closed spec fn effect_text(&self) -> Seq<char> {
        self.effect.text()
    }

    pub closed spec fn output_list(&self) -> Seq<FanOutOutputDeclaration> {
        self.outputs@
    }

    pub fn new(effect: Name, outputs: Vec<FanOutOutputDeclaration>) -> (r: Self)
        ensures
            r.effect_text() == effect.text(),
            r.output_list() == outputs@,
    {
        FanOutTargetsEntry { effect, outputs }
    }

    pub fn effect(&self) -> (r: &Name)
        ensures
            r.text() == self.effect_text(),
    {
        &self.effect
    }

    pub fn outputs(&self) -> (r: &[FanOutOutputDeclaration])
        ensures
            r@ == self.output_list(),
    {
        self.outputs.as_slice()
    }
}

#[derive(Clone, Debug, PartialEq, Eq)]
pub struct FanOutTargetsFeature {
    entries: Vec<FanOutTargetsEntry>,
}

impl FanOutTargetsFeature {
    pub closed spec fn entry_list(&self) -> Seq<FanOutTargetsEntry> {
        self.entries@
    }

    pub fn new(entries: Vec<FanOutTargetsEntry>) -> (r: Self)
        ensures
            r.entry_list() == entries@,
    {
        FanOutTargetsFeature { entries }
    }

    pub fn entries(&self) -> (r: &[FanOutTargetsEntry])
        ensures
            r@ == self.entry_list(),
    {
        self.entries.as_slice()
    }
}

#[derive(Clone, Debug, PartialEq, Eq)]
pub struct StorageDescriptorEntry {
    logical_name: Name,
    table_type: Name,
}

impl StorageDescriptorEntry {
    pub closed spec fn logical_name_text(&self) -> Seq<char> {
        self.logical_name.text()
    }

    pub closed spec fn table_type_text(&self) -> Seq<char> {
        self.table_type.text()
    }

    pub fn new(logical_name: Name, table_type: Name) -> (r: Self)
        ensures
            r.logical_name_text() == logical_name.text(),
            r.table_type_text() == table_type.text(),
    {
        StorageDescriptorEntry { logical_name, table_type }
    }

    pub fn logical_name(&self) -> (r: &Name)
        ensures
            r.text() == self.logical_name_text(),
    {
        &self.logical_name
    }

    pub fn table_type(&self) -> (r: &Name)
        ensures
            r.text() == self.table_type_text(),
    {
        &self.table_type
    }
}

#[derive(Clone, Debug, PartialEq, Eq)]
pub struct StorageDescriptorFeature {
    entries: Vec<StorageDescriptorEntry>,
}

impl StorageDescriptorFeature {
    pub closed spec fn entry_list(&self) -> Seq<StorageDescriptorEntry> {
        self.entries@
    }

    pub fn new(entries: Vec<StorageDescriptorEntry>) -> (r: Self)
        ensures
            r.entry_list() == entries@,
    {
        StorageDescriptorFeature { entries }
    }

    pub fn entries(&self) -> (r: &[StorageDescriptorEntry])
        ensures
            r@ == self.entry_list(),
    {
        self.entries.as_slice()
    }
}

} // verus!
