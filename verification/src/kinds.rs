//! The trigger taxonomy: change kinds as `notify` reports them, and the
//! wildcard relation by which a rule's trigger accepts an event's kind.
//!
//! A kind is a path in a small tree: a category (access, create, modify,
//! remove), below it a sub-kind, and for some sub-kinds a mode. At every level
//! `Any` stands for "all of this level". Two kinds agree when they are equal
//! up to the first level at which either of them says `Any`.

use notify::event::{
    AccessKind, AccessMode, CreateKind, DataChange, MetadataKind, ModifyKind, RemoveKind,
    RenameMode,
};
use notify::EventKind;
use vstd::prelude::*;

verus! {

// ---------------------------------------------------------------------------
// The relation
// ---------------------------------------------------------------------------

/// Two access modes agree when either is the wildcard or both are the same.
pub open spec fn mode_agrees(a: AccessMode, b: AccessMode) -> bool {
    a is Any || b is Any || a == b
}

/// Two access kinds agree when either is the wildcard, or both open (or both
/// close) with modes that agree, or both are the same.
pub open spec fn access_agrees(a: AccessKind, b: AccessKind) -> bool {
    a is Any || b is Any || match (a, b) {
        (AccessKind::Open(m), AccessKind::Open(n)) => mode_agrees(m, n),
        (AccessKind::Close(m), AccessKind::Close(n)) => mode_agrees(m, n),
        _ => a == b,
    }
}

/// Two creation kinds agree when either is the wildcard or both are the same.
pub open spec fn create_agrees(a: CreateKind, b: CreateKind) -> bool {
    a is Any || b is Any || a == b
}

/// Two data changes agree when either is the wildcard or both are the same.
pub open spec fn data_agrees(a: DataChange, b: DataChange) -> bool {
    a is Any || b is Any || a == b
}

/// Two metadata kinds agree when either is the wildcard or both are the same.
pub open spec fn metadata_agrees(a: MetadataKind, b: MetadataKind) -> bool {
    a is Any || b is Any || a == b
}

/// Two rename modes agree when either is the wildcard or both are the same.
pub open spec fn rename_agrees(a: RenameMode, b: RenameMode) -> bool {
    a is Any || b is Any || a == b
}

/// Two modification kinds agree when either is the wildcard, or both are in
/// the same group with details that agree, or both are the same.
pub open spec fn modify_agrees(a: ModifyKind, b: ModifyKind) -> bool {
    a is Any || b is Any || match (a, b) {
        (ModifyKind::Data(x), ModifyKind::Data(y)) => data_agrees(x, y),
        (ModifyKind::Metadata(x), ModifyKind::Metadata(y)) => metadata_agrees(x, y),
        (ModifyKind::Name(x), ModifyKind::Name(y)) => rename_agrees(x, y),
        _ => a == b,
    }
}

/// Two removal kinds agree when either is the wildcard or both are the same.
pub open spec fn remove_agrees(a: RemoveKind, b: RemoveKind) -> bool {
    a is Any || b is Any || a == b
}

/// Whether a trigger kind and an event kind agree: either is the top-level
/// wildcard, or both are in the same category with sub-kinds that agree, or
/// both are `Other`.
pub open spec fn kind_agrees(a: EventKind, b: EventKind) -> bool {
    a is Any || b is Any || match (a, b) {
        (EventKind::Access(x), EventKind::Access(y)) => access_agrees(x, y),
        (EventKind::Create(x), EventKind::Create(y)) => create_agrees(x, y),
        (EventKind::Modify(x), EventKind::Modify(y)) => modify_agrees(x, y),
        (EventKind::Remove(x), EventKind::Remove(y)) => remove_agrees(x, y),
        _ => a == b,
    }
}

/// Whether an access kind is an open or a close whose mode agrees with `mode`.
pub open spec fn carries_mode(kind: AccessKind, mode: AccessMode) -> bool {
    match kind {
        AccessKind::Open(m) => mode_agrees(mode, m),
        AccessKind::Close(m) => mode_agrees(mode, m),
        _ => false,
    }
}

/// Whether a kind names no wildcard at any level.
pub open spec fn is_specific(k: EventKind) -> bool {
    match k {
        EventKind::Any => false,
        EventKind::Access(a) => match a {
            AccessKind::Any => false,
            AccessKind::Open(m) => !(m is Any),
            AccessKind::Close(m) => !(m is Any),
            _ => true,
        },
        EventKind::Create(c) => !(c is Any),
        EventKind::Modify(m) => match m {
            ModifyKind::Any => false,
            ModifyKind::Data(d) => !(d is Any),
            ModifyKind::Metadata(d) => !(d is Any),
            ModifyKind::Name(d) => !(d is Any),
            ModifyKind::Other => true,
        },
        EventKind::Remove(r) => !(r is Any),
        EventKind::Other => true,
    }
}

/// The kind one level up: the lowest level that is not yet a wildcard becomes
/// one. The top-level wildcard is its own parent.
pub open spec fn widen(k: EventKind) -> EventKind {
    match k {
        EventKind::Access(AccessKind::Open(m)) if !(m is Any) => EventKind::Access(
            AccessKind::Open(AccessMode::Any),
        ),
        EventKind::Access(AccessKind::Close(m)) if !(m is Any) => EventKind::Access(
            AccessKind::Close(AccessMode::Any),
        ),
        EventKind::Access(a) if !(a is Any) => EventKind::Access(AccessKind::Any),
        EventKind::Create(c) if !(c is Any) => EventKind::Create(CreateKind::Any),
        EventKind::Modify(ModifyKind::Data(d)) if !(d is Any) => EventKind::Modify(
            ModifyKind::Data(DataChange::Any),
        ),
        EventKind::Modify(ModifyKind::Metadata(d)) if !(d is Any) => EventKind::Modify(
            ModifyKind::Metadata(MetadataKind::Any),
        ),
        EventKind::Modify(ModifyKind::Name(d)) if !(d is Any) => EventKind::Modify(
            ModifyKind::Name(RenameMode::Any),
        ),
        EventKind::Modify(m) if !(m is Any) => EventKind::Modify(ModifyKind::Any),
        EventKind::Remove(r) if !(r is Any) => EventKind::Remove(RemoveKind::Any),
        _ => EventKind::Any,
    }
}

/// Whether `a` is `b` itself or one of the wildcards above it.
pub open spec fn covers(a: EventKind, b: EventKind) -> bool {
    a == b || a == widen(b) || a == widen(widen(b)) || a == widen(widen(widen(b)))
}

// ---------------------------------------------------------------------------
// Equality of the kinds without parts
// ---------------------------------------------------------------------------

/// Whether two access modes are the same.
pub fn same_access_mode(a: &AccessMode, b: &AccessMode) -> (r: bool)
    ensures
        r == (*a == *b),
{
    match (a, b) {
        (AccessMode::Any, AccessMode::Any) => true,
        (AccessMode::Execute, AccessMode::Execute) => true,
        (AccessMode::Read, AccessMode::Read) => true,
        (AccessMode::Write, AccessMode::Write) => true,
        (AccessMode::Other, AccessMode::Other) => true,
        _ => false,
    }
}

/// Whether two creation kinds are the same.
pub fn same_create_kind(a: &CreateKind, b: &CreateKind) -> (r: bool)
    ensures
        r == (*a == *b),
{
    match (a, b) {
        (CreateKind::Any, CreateKind::Any) => true,
        (CreateKind::File, CreateKind::File) => true,
        (CreateKind::Folder, CreateKind::Folder) => true,
        (CreateKind::Other, CreateKind::Other) => true,
        _ => false,
    }
}

/// Whether two data changes are the same.
pub fn same_data_change(a: &DataChange, b: &DataChange) -> (r: bool)
    ensures
        r == (*a == *b),
{
    match (a, b) {
        (DataChange::Any, DataChange::Any) => true,
        (DataChange::Size, DataChange::Size) => true,
        (DataChange::Content, DataChange::Content) => true,
        (DataChange::Other, DataChange::Other) => true,
        _ => false,
    }
}

/// Whether two metadata kinds are the same.
pub fn same_metadata_kind(a: &MetadataKind, b: &MetadataKind) -> (r: bool)
    ensures
        r == (*a == *b),
{
    match (a, b) {
        (MetadataKind::Any, MetadataKind::Any) => true,
        (MetadataKind::AccessTime, MetadataKind::AccessTime) => true,
        (MetadataKind::WriteTime, MetadataKind::WriteTime) => true,
        (MetadataKind::Permissions, MetadataKind::Permissions) => true,
        (MetadataKind::Ownership, MetadataKind::Ownership) => true,
        (MetadataKind::Extended, MetadataKind::Extended) => true,
        (MetadataKind::Other, MetadataKind::Other) => true,
        _ => false,
    }
}

/// Whether two rename modes are the same.
pub fn same_rename_mode(a: &RenameMode, b: &RenameMode) -> (r: bool)
    ensures
        r == (*a == *b),
{
    match (a, b) {
        (RenameMode::Any, RenameMode::Any) => true,
        (RenameMode::To, RenameMode::To) => true,
        (RenameMode::From, RenameMode::From) => true,
        (RenameMode::Both, RenameMode::Both) => true,
        (RenameMode::Other, RenameMode::Other) => true,
        _ => false,
    }
}

/// Whether two removal kinds are the same.
pub fn same_remove_kind(a: &RemoveKind, b: &RemoveKind) -> (r: bool)
    ensures
        r == (*a == *b),
{
    match (a, b) {
        (RemoveKind::Any, RemoveKind::Any) => true,
        (RemoveKind::File, RemoveKind::File) => true,
        (RemoveKind::Folder, RemoveKind::Folder) => true,
        (RemoveKind::Other, RemoveKind::Other) => true,
        _ => false,
    }
}

// ---------------------------------------------------------------------------
// Matching
// ---------------------------------------------------------------------------

/// Whether the trigger `conf_event` accepts an event of kind `given_event`.
pub fn match_event_kind(conf_event: &EventKind, given_event: &EventKind) -> (b: bool)
    ensures
        b == kind_agrees(*conf_event, *given_event),
{
    match conf_event {
        EventKind::Any => true,
        EventKind::Access(access_kind) => match_access_kind(access_kind, given_event),
        EventKind::Create(create_kind) => match_create_kind(create_kind, given_event),
        EventKind::Modify(modify_kind) => match_modify_kind(modify_kind, given_event),
        EventKind::Remove(remove_kind) => match_remove_kind(remove_kind, given_event),
        EventKind::Other => match given_event {
            EventKind::Any => true,
            EventKind::Other => true,
            _ => false,
        },
    }
}

/// Whether an access trigger of kind `conf_kind` accepts the event kind.
pub fn match_access_kind(conf_kind: &AccessKind, given_event: &EventKind) -> (b: bool)
    ensures
        b == kind_agrees(EventKind::Access(*conf_kind), *given_event),
{
    match given_event {
        EventKind::Any => true,
        EventKind::Access(given_kind) => match (conf_kind, given_kind) {
            (AccessKind::Any, _) => true,
            (_, AccessKind::Any) => true,
            (AccessKind::Read, AccessKind::Read) => true,
            (AccessKind::Open(mode), AccessKind::Open(_)) => match_access_mode(mode, given_kind),
            (AccessKind::Close(mode), AccessKind::Close(_)) => match_access_mode(mode, given_kind),
            (AccessKind::Other, AccessKind::Other) => true,
            _ => false,
        },
        _ => false,
    }
}

/// Whether `given_kind` is an open or a close in a mode that `conf_mode`
/// accepts.
pub fn match_access_mode(conf_mode: &AccessMode, given_kind: &AccessKind) -> (b: bool)
    ensures
        b == carries_mode(*given_kind, *conf_mode),
{
    match given_kind {
        AccessKind::Open(mode) => match (conf_mode, mode) {
            (AccessMode::Any, _) => true,
            (_, AccessMode::Any) => true,
            _ => same_access_mode(mode, conf_mode),
        },
        AccessKind::Close(mode) => match (conf_mode, mode) {
            (AccessMode::Any, _) => true,
            (_, AccessMode::Any) => true,
            _ => same_access_mode(mode, conf_mode),
        },
        _ => false,
    }
}

/// Whether a creation trigger of kind `conf_kind` accepts the event kind.
pub fn match_create_kind(conf_kind: &CreateKind, given_event: &EventKind) -> (b: bool)
    ensures
        b == kind_agrees(EventKind::Create(*conf_kind), *given_event),
{
    match given_event {
        EventKind::Any => true,
        EventKind::Create(given_kind) => match (conf_kind, given_kind) {
            (CreateKind::Any, _) => true,
            (_, CreateKind::Any) => true,
            _ => same_create_kind(conf_kind, given_kind),
        },
        _ => false,
    }
}

/// Whether a modification trigger of kind `conf_kind` accepts the event kind.
pub fn match_modify_kind(conf_kind: &ModifyKind, given_event: &EventKind) -> (b: bool)
    ensures
        b == kind_agrees(EventKind::Modify(*conf_kind), *given_event),
{
    match given_event {
        EventKind::Any => true,
        EventKind::Modify(given_kind) => match conf_kind {
            ModifyKind::Any => true,
            ModifyKind::Data(data_change) => match_data_change(data_change, given_kind),
            ModifyKind::Metadata(metadata_kind) => match_metadata_kind(metadata_kind, given_kind),
            ModifyKind::Name(rename_mode) => match_rename_mode(rename_mode, given_kind),
            ModifyKind::Other => match given_kind {
                ModifyKind::Any => true,
                ModifyKind::Other => true,
                _ => false,
            },
        },
        _ => false,
    }
}

/// Whether a data-change trigger accepts the modification kind.
pub fn match_data_change(conf_change: &DataChange, given_kind: &ModifyKind) -> (b: bool)
    ensures
        b == modify_agrees(ModifyKind::Data(*conf_change), *given_kind),
{
    match given_kind {
        ModifyKind::Any => true,
        ModifyKind::Data(given_change) => match (conf_change, given_change) {
            (DataChange::Any, _) => true,
            (_, DataChange::Any) => true,
            _ => same_data_change(conf_change, given_change),
        },
        _ => false,
    }
}

/// Whether a metadata trigger accepts the modification kind.
pub fn match_metadata_kind(conf_kind: &MetadataKind, given_kind: &ModifyKind) -> (b: bool)
    ensures
        b == modify_agrees(ModifyKind::Metadata(*conf_kind), *given_kind),
{
    match given_kind {
        ModifyKind::Any => true,
        ModifyKind::Metadata(given_metadata) => match (conf_kind, given_metadata) {
            (MetadataKind::Any, _) => true,
            (_, MetadataKind::Any) => true,
            _ => same_metadata_kind(conf_kind, given_metadata),
        },
        _ => false,
    }
}

/// Whether a rename trigger accepts the modification kind.
pub fn match_rename_mode(conf_mode: &RenameMode, given_kind: &ModifyKind) -> (b: bool)
    ensures
        b == modify_agrees(ModifyKind::Name(*conf_mode), *given_kind),
{
    match given_kind {
        ModifyKind::Any => true,
        ModifyKind::Name(given_mode) => match (conf_mode, given_mode) {
            (RenameMode::Any, _) => true,
            (_, RenameMode::Any) => true,
            _ => same_rename_mode(conf_mode, given_mode),
        },
        _ => false,
    }
}

/// Whether a removal trigger of kind `conf_kind` accepts the event kind.
pub fn match_remove_kind(conf_kind: &RemoveKind, given_event: &EventKind) -> (b: bool)
    ensures
        b == kind_agrees(EventKind::Remove(*conf_kind), *given_event),
{
    match given_event {
        EventKind::Any => true,
        EventKind::Remove(given_kind) => match (conf_kind, given_kind) {
            (RemoveKind::Any, _) => true,
            (_, RemoveKind::Any) => true,
            _ => same_remove_kind(conf_kind, given_kind),
        },
        _ => false,
    }
}

// ---------------------------------------------------------------------------
// Laws of the relation
// ---------------------------------------------------------------------------

/// The top-level wildcard agrees with every kind, on either side: a trigger
/// that says `Any` accepts every event, and an event of kind `Any` is accepted
/// by every trigger.
pub proof fn lemma_wildcard_always_agrees(k: EventKind)
    ensures
        kind_agrees(EventKind::Any, k),
        kind_agrees(k, EventKind::Any),
{
}

/// A wildcard below the top agrees with every kind of its own category.
pub proof fn lemma_category_wildcard_agrees(
    a: AccessKind,
    c: CreateKind,
    m: ModifyKind,
    r: RemoveKind,
)
    ensures
        kind_agrees(EventKind::Access(AccessKind::Any), EventKind::Access(a)),
        kind_agrees(EventKind::Access(a), EventKind::Access(AccessKind::Any)),
        kind_agrees(EventKind::Create(CreateKind::Any), EventKind::Create(c)),
        kind_agrees(EventKind::Create(c), EventKind::Create(CreateKind::Any)),
        kind_agrees(EventKind::Modify(ModifyKind::Any), EventKind::Modify(m)),
        kind_agrees(EventKind::Modify(m), EventKind::Modify(ModifyKind::Any)),
        kind_agrees(EventKind::Remove(RemoveKind::Any), EventKind::Remove(r)),
        kind_agrees(EventKind::Remove(r), EventKind::Remove(RemoveKind::Any)),
{
}

/// An event of a specific kind is accepted by exactly the triggers that name
/// that kind or one of the wildcards above it.
pub proof fn lemma_specific_agrees_iff_covered(trigger: EventKind, event: EventKind)
    requires
        is_specific(event),
    ensures
        kind_agrees(trigger, event) <==> covers(trigger, event),
{
}

/// Every kind agrees with itself, and agreement does not depend on the side.
pub proof fn lemma_agreement_is_reflexive_and_symmetric(a: EventKind, b: EventKind)
    ensures
        kind_agrees(a, a),
        kind_agrees(a, b) == kind_agrees(b, a),
{
}

} // verus!
