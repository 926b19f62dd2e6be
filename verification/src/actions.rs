//! What a rule does once its conditions hold: the action descriptors, and the
//! single filesystem operation that executing one on a path amounts to.
//!
//! Nothing here touches the filesystem. Executing an action yields an
//! [`Operation`], a plain description of the one step to perform; performing
//! it is left to the caller.

use crate::conditions::{node_holds, CheckArgs, ConditionChecker, ConditionNode, ConditionOrConditionsGroup};
use crate::kinds::{covers, is_specific, kind_agrees, lemma_specific_agrees_iff_covered, match_event_kind};
use crate::trusted::{file_name, join, path_file_name, path_join};
use notify::EventKind;
use vstd::prelude::*;

verus! {

// ---------------------------------------------------------------------------
// Descriptors
// ---------------------------------------------------------------------------

/// Move the file into a directory, keeping its name.
#[derive(Debug)]
pub struct MoveFileAction {
    pub destination: String,
}

/// Remove the file. The flag is carried and changes nothing.
#[derive(Clone, Copy, Debug, PartialEq, Eq, Structural)]
pub struct DeleteFileAction {
    pub force: bool,
}

/// Make a symbolic link at `to` that points to the file.
#[derive(Debug)]
pub struct CreateSymlinkAction {
    pub to: String,
}

/// Run a shell command in which the first `{}` stands for the file.
#[derive(Debug)]
pub struct CustomAction {
    pub command: String,
}

/// The action of a rule: exactly one of the four.
#[derive(Debug)]
pub enum ActionType {
    MoveFile(MoveFileAction),
    DeleteFile(DeleteFileAction),
    CreateSymlink(CreateSymlinkAction),
    Custom(CustomAction),
}

/// The mathematical content of an [`ActionType`].
pub enum ActionTypeView {
    MoveFile(Seq<char>),
    DeleteFile(bool),
    CreateSymlink(Seq<char>),
    Custom(Seq<char>),
}

impl View for ActionType {
    type V = ActionTypeView;

    open spec fn view(&self) -> ActionTypeView {
        match self {
            ActionType::MoveFile(a) => ActionTypeView::MoveFile(a.destination@),
            ActionType::DeleteFile(a) => ActionTypeView::DeleteFile(a.force),
            ActionType::CreateSymlink(a) => ActionTypeView::CreateSymlink(a.to@),
            ActionType::Custom(a) => ActionTypeView::Custom(a.command@),
        }
    }
}

impl Clone for MoveFileAction {
    fn clone(&self) -> (copy: Self)
        ensures
            copy.destination@ == self.destination@,
    {
        MoveFileAction { destination: self.destination.clone() }
    }
}

impl Clone for CreateSymlinkAction {
    fn clone(&self) -> (copy: Self)
        ensures
            copy.to@ == self.to@,
    {
        CreateSymlinkAction { to: self.to.clone() }
    }
}

impl Clone for CustomAction {
    fn clone(&self) -> (copy: Self)
        ensures
            copy.command@ == self.command@,
    {
        CustomAction { command: self.command.clone() }
    }
}

impl Clone for ActionType {
    fn clone(&self) -> (copy: Self)
        ensures
            copy@ == self@,
    {
        match self {
            ActionType::MoveFile(a) => ActionType::MoveFile(a.clone()),
            ActionType::DeleteFile(a) => ActionType::DeleteFile(*a),
            ActionType::CreateSymlink(a) => ActionType::CreateSymlink(a.clone()),
            ActionType::Custom(a) => ActionType::Custom(a.clone()),
        }
    }
}

impl ActionType {
    /// Whether two descriptors say the same.
    pub fn same_as(&self, other: &ActionType) -> (b: bool)
        ensures
            b == (self@ == other@),
    {
        match (self, other) {
            (ActionType::MoveFile(a), ActionType::MoveFile(b)) => a.destination == b.destination,
            (ActionType::DeleteFile(a), ActionType::DeleteFile(b)) => a.force == b.force,
            (ActionType::CreateSymlink(a), ActionType::CreateSymlink(b)) => a.to == b.to,
            (ActionType::Custom(a), ActionType::Custom(b)) => a.command == b.command,
            _ => false,
        }
    }
}

// ---------------------------------------------------------------------------
// Operations
// ---------------------------------------------------------------------------

/// The one step that executing an action on a path amounts to.
#[derive(Debug)]
pub enum Operation {
    /// Rename `from` to `to`.
    Rename { from: String, to: String },
    /// Remove the file at `path`.
    Remove { path: String },
    /// Make a symbolic link at `link` that points to `target`.
    Symlink { target: String, link: String },
    /// Hand `command` to a shell.
    Run { command: String },
    /// Do nothing: the path has no file name to act on.
    Nothing,
}

/// The mathematical content of an [`Operation`].
pub enum OperationView {
    Rename { from: Seq<char>, to: Seq<char> },
    Remove { path: Seq<char> },
    Symlink { target: Seq<char>, link: Seq<char> },
    Run { command: Seq<char> },
    Nothing,
}

impl View for Operation {
    type V = OperationView;

    open spec fn view(&self) -> OperationView {
        match self {
            Operation::Rename { from, to } => OperationView::Rename { from: from@, to: to@ },
            Operation::Remove { path } => OperationView::Remove { path: path@ },
            Operation::Symlink { target, link } => OperationView::Symlink {
                target: target@,
                link: link@,
            },
            Operation::Run { command } => OperationView::Run { command: command@ },
            Operation::Nothing => OperationView::Nothing,
        }
    }
}

/// Moving `src` into the directory `dst`: a rename to the path that joins
/// `dst` and the file name of `src`, and nothing where `src` has no file name.
pub open spec fn planned_move(src: Seq<char>, dst: Seq<char>) -> OperationView {
    match path_file_name(src) {
        Some(name) => OperationView::Rename { from: src, to: path_join(dst, name) },
        None => OperationView::Nothing,
    }
}

/// Linking to `src` from `dst`: a link at `dst` that points to `src`, and
/// nothing where `src` has no file name.
pub open spec fn planned_symlink(src: Seq<char>, dst: Seq<char>) -> OperationView {
    match path_file_name(src) {
        Some(_) => OperationView::Symlink { target: src, link: dst },
        None => OperationView::Nothing,
    }
}

/// The operation that moves `src` into the directory `dst` under its own
/// name.
pub fn move_file(src: &str, dst: &str) -> (op: Operation)
    ensures
        op@ == planned_move(src@, dst@),
{
    match file_name(src) {
        Some(name) => Operation::Rename { from: src.to_owned(), to: join(dst, name.as_str()) },
        None => Operation::Nothing,
    }
}

/// The operation that removes `path`.
pub fn remove_file(path: &str) -> (op: Operation)
    ensures
        op@ == (OperationView::Remove { path: path@ }),
{
    Operation::Remove { path: path.to_owned() }
}

/// The operation that makes a link at `dst` pointing to `src`.
pub fn create_symlink(src: &str, dst: &str) -> (op: Operation)
    ensures
        op@ == planned_symlink(src@, dst@),
{
    match file_name(src) {
        Some(_) => Operation::Symlink { target: src.to_owned(), link: dst.to_owned() },
        None => Operation::Nothing,
    }
}

// ---------------------------------------------------------------------------
// Command templates
// ---------------------------------------------------------------------------

/// Whether the two characters `{}` stand at position `i` of the template.
pub open spec fn placeholder_at(template: Seq<char>, i: int) -> bool {
    0 <= i && i + 1 < template.len() && template[i] == '{' && template[i + 1] == '}'
}

/// Whether `i` is the position of the first `{}` of the template.
pub open spec fn first_placeholder(template: Seq<char>, i: int) -> bool {
    placeholder_at(template, i) && forall|j: int| 0 <= j < i ==> !placeholder_at(template, j)
}

/// The template with its first `{}` replaced by `path`; the template itself
/// where it has no `{}`.
pub open spec fn substituted(template: Seq<char>, path: Seq<char>) -> Seq<char> {
    if exists|i: int| first_placeholder(template, i) {
        let i = choose|i: int| first_placeholder(template, i);
        template.subrange(0, i) + path + template.subrange(i + 2, template.len() as int)
    } else {
        template
    }
}

/// A template has at most one first placeholder.
pub proof fn lemma_first_placeholder_unique(template: Seq<char>, i: int, j: int)
    requires
        first_placeholder(template, i),
        first_placeholder(template, j),
    ensures
        i == j,
{
}

impl CustomAction {
    /// The command line to hand to a shell for `path`: the template with its
    /// first `{}` replaced by the path.
    pub fn execute_command(&self, path: &str) -> (command: String)
        ensures
            command@ == substituted(self.command@, path@),
    {
        let template = self.command.as_str();
        let n = template.unicode_len();
        let mut i: usize = 0;
        while i < n
            invariant
                i <= n,
                n == template@.len(),
                template@ == self.command@,
                forall|j: int| 0 <= j < i ==> !placeholder_at(template@, j),
            decreases n - i,
        {
            if i + 1 < n && template.get_char(i) == '{' && template.get_char(i + 1) == '}' {
                let mut command = String::from_str(template.substring_char(0, i));
                command.append(path);
                command.append(template.substring_char(i + 2, n));
                proof {
                    assert(first_placeholder(template@, i as int));
                    let chosen = choose|k: int| first_placeholder(template@, k);
                    lemma_first_placeholder_unique(template@, i as int, chosen);
                }
                return command;
            }
            i += 1;
        }
        proof {
            assert forall|k: int| !first_placeholder(template@, k) by {
                if placeholder_at(template@, k) {
                    assert(0 <= k < i);
                }
            }
        }
        self.command.clone()
    }
}

// ---------------------------------------------------------------------------
// Actions
// ---------------------------------------------------------------------------

/// What a rule does and when: the kinds of event that trigger it, the
/// conditions the file must meet, and the action itself.
#[derive(Debug)]
pub struct Action {
    pub triggers: Vec<EventKind>,
    pub conditions: ConditionOrConditionsGroup,
    pub action_type: ActionType,
}

/// The mathematical content of an [`Action`].
pub struct ActionView {
    pub triggers: Seq<EventKind>,
    pub conditions: ConditionNode,
    pub action_type: ActionTypeView,
}

impl View for Action {
    type V = ActionView;

    open spec fn view(&self) -> ActionView {
        ActionView {
            triggers: self.triggers@,
            conditions: self.conditions@,
            action_type: self.action_type@,
        }
    }
}

impl Clone for Action {
    fn clone(&self) -> (copy: Self)
        ensures
            copy@ == self@,
    {
        let mut triggers: Vec<EventKind> = Vec::new();
        let mut i: usize = 0;
        while i < self.triggers.len()
            invariant
                i <= self.triggers.len(),
                triggers.len() == i,
                forall|j: int| 0 <= j < i ==> triggers[j] == self.triggers[j],
            decreases self.triggers.len() - i,
        {
            triggers.push(self.triggers[i]);
            i += 1;
        }
        assert(triggers@ =~= self.triggers@);
        Action {
            triggers,
            conditions: self.conditions.clone(),
            action_type: self.action_type.clone(),
        }
    }
}

/// Whether some trigger of the list accepts an event of the kind.
pub open spec fn triggers_accept(triggers: Seq<EventKind>, kind: EventKind) -> bool {
    exists|i: int| 0 <= i < triggers.len() && kind_agrees(#[trigger] triggers[i], kind)
}

/// The operation that an action descriptor amounts to on a path.
pub open spec fn planned(action: ActionTypeView, path: Seq<char>) -> OperationView {
    match action {
        ActionTypeView::MoveFile(destination) => planned_move(path, destination),
        ActionTypeView::DeleteFile(_) => OperationView::Remove { path },
        ActionTypeView::CreateSymlink(to) => planned_symlink(path, to),
        ActionTypeView::Custom(command) => OperationView::Run {
            command: substituted(command, path),
        },
    }
}

/// Whether an action applies to an event of the kind on the file that the
/// facts describe: some trigger accepts the kind and the conditions hold.
pub open spec fn applies(action: ActionView, kind: EventKind, args: crate::conditions::CheckArgsView) -> bool {
    triggers_accept(action.triggers, kind) && node_holds(action.conditions, args)
}

impl ActionType {
    /// The operation that this action amounts to on `path`.
    pub fn plan(&self, path: &str) -> (op: Operation)
        ensures
            op@ == planned(self@, path@),
    {
        match self {
            ActionType::MoveFile(move_file_action) => move_file(
                path,
                move_file_action.destination.as_str(),
            ),
            ActionType::DeleteFile(_) => remove_file(path),
            ActionType::CreateSymlink(create_symlink_action) => create_symlink(
                path,
                create_symlink_action.to.as_str(),
            ),
            ActionType::Custom(custom_action) => Operation::Run {
                command: custom_action.execute_command(path),
            },
        }
    }
}

impl Action {
    /// Whether some trigger of the action accepts an event of the kind.
    pub fn check(&self, kind: &EventKind) -> (b: bool)
        ensures
            b == triggers_accept(self@.triggers, *kind),
    {
        let mut i: usize = 0;
        while i < self.triggers.len()
            invariant
                i <= self.triggers.len(),
                forall|j: int| 0 <= j < i ==> !kind_agrees(#[trigger] self.triggers@[j], *kind),
            decreases self.triggers.len() - i,
        {
            if match_event_kind(&self.triggers[i], kind) {
                assert(kind_agrees(self.triggers@[i as int], *kind));
                return true;
            }
            i += 1;
        }
        false
    }

    /// What to do for an event of the kind on the file that `args` describes:
    /// the action's operation on the file's path where the action applies,
    /// and nothing to do where it does not.
    pub fn execute(&self, kind: &EventKind, args: &CheckArgs) -> (op: Option<Operation>)
        ensures
            match op {
                Some(o) => applies(self@, *kind, args@) && o@ == planned(
                    self@.action_type,
                    args@.file_path,
                ),
                None => !applies(self@, *kind, args@),
            },
    {
        if self.check(kind) && self.conditions.check(args) {
            Some(self.action_type.plan(args.file_path.as_str()))
        } else {
            None
        }
    }
}

// ---------------------------------------------------------------------------
// Laws of triggering
// ---------------------------------------------------------------------------

/// A rule that names the wildcard among its triggers is triggered by every
/// event.
pub proof fn lemma_wildcard_trigger_accepts_all(triggers: Seq<EventKind>, kind: EventKind)
    requires
        triggers.contains(EventKind::Any),
    ensures
        triggers_accept(triggers, kind),
{
    let i = choose|i: int| 0 <= i < triggers.len() && triggers[i] == EventKind::Any;
    assert(kind_agrees(triggers[i], kind));
}

/// An event of the wildcard kind triggers every rule that has a trigger at
/// all.
pub proof fn lemma_wildcard_event_triggers_all(triggers: Seq<EventKind>)
    requires
        triggers.len() > 0,
    ensures
        triggers_accept(triggers, EventKind::Any),
{
    assert(kind_agrees(triggers[0], EventKind::Any));
}

/// An event of a specific kind triggers exactly the rules that name that
/// kind or one of the wildcards above it.
pub proof fn lemma_specific_event_triggers(triggers: Seq<EventKind>, kind: EventKind)
    requires
        is_specific(kind),
    ensures
        triggers_accept(triggers, kind) <==> exists|i: int|
            0 <= i < triggers.len() && covers(#[trigger] triggers[i], kind),
{
    if triggers_accept(triggers, kind) {
        let i = choose|i: int| 0 <= i < triggers.len() && kind_agrees(#[trigger] triggers[i], kind);
        lemma_specific_agrees_iff_covered(triggers[i], kind);
    }
    if exists|i: int| 0 <= i < triggers.len() && covers(#[trigger] triggers[i], kind) {
        let i = choose|i: int| 0 <= i < triggers.len() && covers(#[trigger] triggers[i], kind);
        lemma_specific_agrees_iff_covered(triggers[i], kind);
    }
}

} // verus!
