//! File events of the planning directories and the decisions taken on them.
pub mod debounce;
pub mod pipeline;

use vstd::prelude::*;

verus! {

/// The type of file change detected.
#[derive(Debug, Clone, Copy, PartialEq, Eq, Structural)]
pub enum FileEventKind {
    Create,
    Modify,
    Remove,
}

/// A file event detected by the watcher, before debouncing.
#[derive(Debug, Clone)]
pub struct FileEvent {
    /// Which registered project this event belongs to
    pub project_id: String,
    /// Full path to the changed file
    pub path: String,
    /// What kind of change was detected
    pub kind: FileEventKind,
}

/// A debounced file event ready for processing by the parse pipeline.
#[derive(Debug, Clone)]
pub struct DebouncedEvent {
    /// Full path to the changed file
    pub path: String,
    /// Which registered project this event belongs to
    pub project_id: String,
    /// What kind of change was detected
    pub kind: FileEventKind,
}

/// `notify::event::CreateKind` as plain values.
#[derive(Debug, Clone, Copy, PartialEq, Eq, Structural)]
pub enum CreateKindModel {
    Any,
    File,
    Folder,
    Other,
}

/// `notify::event::RenameMode` as plain values.
#[derive(Debug, Clone, Copy, PartialEq, Eq, Structural)]
pub enum RenameModel {
    Any,
    To,
    From,
    Both,
    Other,
}

/// `notify::event::ModifyKind` as plain values (what changed in a data or
/// metadata change is not kept).
#[derive(Debug, Clone, Copy, PartialEq, Eq, Structural)]
pub enum ModifyKindModel {
    Any,
    Data,
    Metadata,
    Name(RenameModel),
    Other,
}

/// `notify::event::RemoveKind` as plain values.
#[derive(Debug, Clone, Copy, PartialEq, Eq, Structural)]
pub enum RemoveKindModel {
    Any,
    File,
    Folder,
    Other,
}

/// `notify::EventKind` as plain values (the kind of an access is not kept).
#[derive(Debug, Clone, Copy, PartialEq, Eq, Structural)]
pub enum EventKindModel {
    Any,
    Access,
    Create(CreateKindModel),
    Modify(ModifyKindModel),
    Remove(RemoveKindModel),
    Other,
}

#[verifier::external_type_specification]
#[verifier::external_body]
pub struct ExEventKind(notify::EventKind);

#[verifier::external_type_specification]
#[verifier::external_body]
pub struct ExCreateKind(notify::event::CreateKind);

#[verifier::external_type_specification]
#[verifier::external_body]
pub struct ExModifyKind(notify::event::ModifyKind);

#[verifier::external_type_specification]
#[verifier::external_body]
pub struct ExRemoveKind(notify::event::RemoveKind);

#[verifier::external_type_specification]
#[verifier::external_body]
pub struct ExRenameMode(notify::event::RenameMode);

/// The plain-value model of a `notify::EventKind`: which variant it is, with
/// the models of its inner kinds. A function of the value alone.
pub uninterp spec fn notify_kind_model(kind: notify::EventKind) -> EventKindModel;

/// The variant of a `notify::event::CreateKind`.
pub uninterp spec fn notify_create_kind(k: notify::event::CreateKind) -> CreateKindModel;

/// The variant of a `notify::event::ModifyKind`, with the rename mode of a
/// name change.
pub uninterp spec fn notify_modify_kind(k: notify::event::ModifyKind) -> ModifyKindModel;

/// The variant of a `notify::event::RemoveKind`.
pub uninterp spec fn notify_remove_kind(k: notify::event::RemoveKind) -> RemoveKindModel;

/// The variant of a `notify::event::RenameMode`.
pub uninterp spec fn notify_rename_mode(m: notify::event::RenameMode) -> RenameModel;

/// Tells the variants of a `notify::event::CreateKind` apart; the contract
/// says the result is the variant's model.
#[verifier::external_body]
fn create_kind_model(k: &notify::event::CreateKind) -> (r: CreateKindModel)
    ensures
        r == notify_create_kind(*k),
{
    match k {
        notify::event::CreateKind::Any => CreateKindModel::Any,
        notify::event::CreateKind::File => CreateKindModel::File,
        notify::event::CreateKind::Folder => CreateKindModel::Folder,
        notify::event::CreateKind::Other => CreateKindModel::Other,
    }
}

/// Tells the variants of a `notify::event::RenameMode` apart; the contract
/// says the result is the variant's model.
#[verifier::external_body]
fn rename_model(k: &notify::event::RenameMode) -> (r: RenameModel)
    ensures
        r == notify_rename_mode(*k),
{
    match k {
        notify::event::RenameMode::Any => RenameModel::Any,
        notify::event::RenameMode::To => RenameModel::To,
        notify::event::RenameMode::From => RenameModel::From,
        notify::event::RenameMode::Both => RenameModel::Both,
        notify::event::RenameMode::Other => RenameModel::Other,
    }
}

/// The parts of a `notify::event::ModifyKind`: which variant it is, and the
/// rename mode of a name change.
pub enum ModifyKindParts<'a> {
    Any,
    Data,
    Metadata,
    Name(&'a notify::event::RenameMode),
    Other,
}

/// Tells the variants of a `notify::event::ModifyKind` apart; the contract
/// says which model each variant has (a name change: that of its mode).
#[verifier::external_body]
fn modify_kind_parts(k: &notify::event::ModifyKind) -> (r: ModifyKindParts<'_>)
    ensures
        match r {
            ModifyKindParts::Any => notify_modify_kind(*k) == ModifyKindModel::Any,
            ModifyKindParts::Data => notify_modify_kind(*k) == ModifyKindModel::Data,
            ModifyKindParts::Metadata => notify_modify_kind(*k) == ModifyKindModel::Metadata,
            ModifyKindParts::Name(m) => notify_modify_kind(*k) == ModifyKindModel::Name(
                notify_rename_mode(*m),
            ),
            ModifyKindParts::Other => notify_modify_kind(*k) == ModifyKindModel::Other,
        },
{
    match k {
        notify::event::ModifyKind::Any => ModifyKindParts::Any,
        notify::event::ModifyKind::Data(_) => ModifyKindParts::Data,
        notify::event::ModifyKind::Metadata(_) => ModifyKindParts::Metadata,
        notify::event::ModifyKind::Name(m) => ModifyKindParts::Name(m),
        notify::event::ModifyKind::Other => ModifyKindParts::Other,
    }
}

/// Tells the variants of a `notify::event::RemoveKind` apart; the contract
/// says the result is the variant's model.
#[verifier::external_body]
fn remove_kind_model(k: &notify::event::RemoveKind) -> (r: RemoveKindModel)
    ensures
        r == notify_remove_kind(*k),
{
    match k {
        notify::event::RemoveKind::Any => RemoveKindModel::Any,
        notify::event::RemoveKind::File => RemoveKindModel::File,
        notify::event::RemoveKind::Folder => RemoveKindModel::Folder,
        notify::event::RemoveKind::Other => RemoveKindModel::Other,
    }
}

/// The parts of a `notify::EventKind`: which variant it is, and the inner
/// kind of a create, modify or remove event.
pub enum EventKindParts<'a> {
    Any,
    Access,
    Create(&'a notify::event::CreateKind),
    Modify(&'a notify::event::ModifyKind),
    Remove(&'a notify::event::RemoveKind),
    Other,
}

/// Tells the variants of a `notify::EventKind` apart; the contract says
/// which model each variant has (a create, modify or remove event: that of
/// its inner kind).
#[verifier::external_body]
fn event_kind_parts(k: &notify::EventKind) -> (r: EventKindParts<'_>)
    ensures
        match r {
            EventKindParts::Any => notify_kind_model(*k) == EventKindModel::Any,
            EventKindParts::Access => notify_kind_model(*k) == EventKindModel::Access,
            EventKindParts::Create(c) => notify_kind_model(*k) == EventKindModel::Create(
                notify_create_kind(*c),
            ),
            EventKindParts::Modify(m) => notify_kind_model(*k) == EventKindModel::Modify(
                notify_modify_kind(*m),
            ),
            EventKindParts::Remove(x) => notify_kind_model(*k) == EventKindModel::Remove(
                notify_remove_kind(*x),
            ),
            EventKindParts::Other => notify_kind_model(*k) == EventKindModel::Other,
        },
{
    match k {
        notify::EventKind::Any => EventKindParts::Any,
        notify::EventKind::Access(_) => EventKindParts::Access,
        notify::EventKind::Create(c) => EventKindParts::Create(c),
        notify::EventKind::Modify(m) => EventKindParts::Modify(m),
        notify::EventKind::Remove(r) => EventKindParts::Remove(r),
        notify::EventKind::Other => EventKindParts::Other,
    }
}

/// The plain-value model of a `notify::EventKind`.
pub fn event_kind_model(kind: &notify::EventKind) -> (r: EventKindModel)
    ensures
        r == notify_kind_model(*kind),
{
    match event_kind_parts(kind) {
        EventKindParts::Any => EventKindModel::Any,
        EventKindParts::Access => EventKindModel::Access,
        EventKindParts::Create(c) => EventKindModel::Create(create_kind_model(c)),
        EventKindParts::Modify(m) => EventKindModel::Modify(
            match modify_kind_parts(m) {
                ModifyKindParts::Any => ModifyKindModel::Any,
                ModifyKindParts::Data => ModifyKindModel::Data,
                ModifyKindParts::Metadata => ModifyKindModel::Metadata,
                ModifyKindParts::Name(mode) => ModifyKindModel::Name(rename_model(mode)),
                ModifyKindParts::Other => ModifyKindModel::Other,
            },
        ),
        EventKindParts::Remove(r) => EventKindModel::Remove(remove_kind_model(r)),
        EventKindParts::Other => EventKindModel::Other,
    }
}

/// The file event kind of a notify event kind: file (or unspecified)
/// creations, data (or unspecified) modifications and file (or unspecified)
/// removals; a rename to a new name counts as a creation, for atomic
/// writes. Anything else (metadata, access, folders, other) is ignored.
pub open spec fn file_event_kind_spec(k: EventKindModel) -> Option<FileEventKind> {
    match k {
        EventKindModel::Create(CreateKindModel::File) => Some(FileEventKind::Create),
        EventKindModel::Create(CreateKindModel::Any) => Some(FileEventKind::Create),
        EventKindModel::Modify(ModifyKindModel::Data) => Some(FileEventKind::Modify),
        EventKindModel::Modify(ModifyKindModel::Any) => Some(FileEventKind::Modify),
        EventKindModel::Remove(RemoveKindModel::File) => Some(FileEventKind::Remove),
        EventKindModel::Remove(RemoveKindModel::Any) => Some(FileEventKind::Remove),
        EventKindModel::Modify(ModifyKindModel::Name(RenameModel::To)) => Some(
            FileEventKind::Create,
        ),
        _ => None,
    }
}

/// Map a modelled event kind to our `FileEventKind`, filtering out
/// irrelevant events.
pub fn map_event_kind_model(kind: EventKindModel) -> (r: Option<FileEventKind>)
    ensures
        r == file_event_kind_spec(kind),
{
    match kind {
        EventKindModel::Create(CreateKindModel::File) | EventKindModel::Create(
            CreateKindModel::Any,
        ) => Some(FileEventKind::Create),
        EventKindModel::Modify(ModifyKindModel::Data) | EventKindModel::Modify(
            ModifyKindModel::Any,
        ) => Some(FileEventKind::Modify),
        EventKindModel::Remove(RemoveKindModel::File) | EventKindModel::Remove(
            RemoveKindModel::Any,
        ) => Some(FileEventKind::Remove),
        EventKindModel::Modify(ModifyKindModel::Name(RenameModel::To)) => Some(
            FileEventKind::Create,
        ),
        _ => None,
    }
}

/// Map a notify `EventKind` to our `FileEventKind`, filtering out irrelevant
/// events.
///
/// - Create events -> Create
/// - Modify (data change) -> Modify
/// - Remove events -> Remove
/// - Rename TO events -> Create (for atomic write support)
/// - Metadata, Access, Other -> None (filtered out)
pub fn map_event_kind(kind: &notify::EventKind) -> (r: Option<FileEventKind>)
    ensures
        r == file_event_kind_spec(notify_kind_model(*kind)),
{
    let m = event_kind_model(kind);
    map_event_kind_model(m)
}

/// Removed files are not re-parsed: the last state read from them stays.
pub fn should_process(kind: FileEventKind) -> (r: bool)
    ensures
        r == (kind != FileEventKind::Remove),
{
    match kind {
        FileEventKind::Remove => false,
        _ => true,
    }
}

} // verus!
