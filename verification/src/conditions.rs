//! The condition tree of a rule and its evaluation against what is known of
//! a file when a burst of events has settled.
//!
//! Evaluation is a function of the tree and of the facts handed in: it reads
//! nothing else and changes nothing. A leaf whose input is missing (no
//! metadata, no recognisable content, a pattern that does not compile) is
//! false; it never fails the tree.

use crate::trusted::{
    file_name, path_file_name, regex_accepts, regex_finds, regex_search, sniff, sniffed_type,
};
use infer::MatcherType;
use vstd::prelude::*;
use vstd::slice::slice_subrange;

verus! {

// ---------------------------------------------------------------------------
// What is known of the file
// ---------------------------------------------------------------------------

/// What the filesystem reports of a path.
#[derive(Clone, Copy, Debug, PartialEq, Eq, Structural)]
pub struct FileMetadata {
    pub is_dir: bool,
    pub is_symlink: bool,
    pub len: u64,
}

/// The facts a condition tree is evaluated against. They are gathered anew
/// when a burst settles; a fact that could not be obtained is absent.
#[derive(Debug)]
pub struct CheckArgs {
    pub file_metadata: Option<FileMetadata>,
    pub file_type: Option<MatcherType>,
    pub file_path: String,
}

/// The mathematical content of [`CheckArgs`].
pub struct CheckArgsView {
    pub file_metadata: Option<FileMetadata>,
    pub file_type: Option<MatcherType>,
    pub file_path: Seq<char>,
}

impl View for CheckArgs {
    type V = CheckArgsView;

    open spec fn view(&self) -> CheckArgsView {
        CheckArgsView {
            file_metadata: self.file_metadata,
            file_type: self.file_type,
            file_path: self.file_path@,
        }
    }
}

/// The number of bytes at the start of a file that its content class is read
/// from.
pub const HEAD_LEN: usize = 512;

/// The part of the bytes that the content class is read from: the first
/// [`HEAD_LEN`] of them, or all where there are fewer.
pub open spec fn head_of(bytes: Seq<u8>) -> Seq<u8> {
    if bytes.len() <= HEAD_LEN {
        bytes
    } else {
        bytes.take(HEAD_LEN as int)
    }
}

/// The content class that the start of a file shows, where the file could be
/// read at all.
pub open spec fn sniffed(bytes: Option<Seq<u8>>) -> Option<MatcherType> {
    match bytes {
        Some(bytes) => sniffed_type(head_of(bytes)),
        None => None,
    }
}

impl CheckArgs {
    /// Bundles the facts about `file_path`: its metadata, where it could be
    /// read, and the content class that the start of the file shows, where
    /// `bytes` could be read from it. Of the bytes only the first
    /// [`HEAD_LEN`] count.
    pub fn new(file_path: String, file_metadata: Option<FileMetadata>, bytes: Option<Vec<u8>>) -> (args:
        CheckArgs)
        ensures
            args@ == (CheckArgsView {
                file_metadata,
                file_type: sniffed(
                    match bytes {
                        Some(bytes) => Some(bytes@),
                        None => None,
                    },
                ),
                file_path: file_path@,
            }),
    {
        let file_type = match &bytes {
            Some(bytes) => {
                if bytes.len() <= HEAD_LEN {
                    sniff(bytes.as_slice())
                } else {
                    sniff(slice_subrange(bytes.as_slice(), 0, HEAD_LEN))
                }
            },
            None => None,
        };
        CheckArgs { file_metadata, file_type, file_path }
    }
}

// ---------------------------------------------------------------------------
// Leaves
// ---------------------------------------------------------------------------

/// The six comparisons.
#[derive(Clone, Copy, Debug, PartialEq, Eq, Structural)]
pub enum ComparisonOperator {
    GreaterThan,
    GreaterThanOrEqual,
    LessThan,
    LessThanOrEqual,
    Equal,
    NotEqual,
}

/// What `left op right` means.
pub open spec fn compare(op: ComparisonOperator, left: int, right: int) -> bool {
    match op {
        ComparisonOperator::GreaterThan => left > right,
        ComparisonOperator::GreaterThanOrEqual => left >= right,
        ComparisonOperator::LessThan => left < right,
        ComparisonOperator::LessThanOrEqual => left <= right,
        ComparisonOperator::Equal => left == right,
        ComparisonOperator::NotEqual => left != right,
    }
}

/// The unit in which a size is written.
#[derive(Clone, Copy, Debug, PartialEq, Eq, Structural)]
pub enum SizeUnit {
    Bytes,
    Kilobytes,
    Megabytes,
    Gigabytes,
}

impl SizeUnit {
    /// The number of bytes in one unit.
    pub open spec fn factor(self) -> int {
        match self {
            SizeUnit::Bytes => 1,
            SizeUnit::Kilobytes => 1024,
            SizeUnit::Megabytes => 1_048_576,
            SizeUnit::Gigabytes => 1_073_741_824,
        }
    }

    /// Whether `size` units are a number of bytes that fits in 64 bits.
    pub fn fits(self, size: u64) -> (b: bool)
        ensures
            b == (size * self.factor() <= u64::MAX),
    {
        match self {
            SizeUnit::Bytes => true,
            SizeUnit::Kilobytes => size <= 0x003f_ffff_ffff_ffff,
            SizeUnit::Megabytes => size <= 0x0000_0fff_ffff_ffff,
            SizeUnit::Gigabytes => size <= 0x0000_0003_ffff_ffff,
        }
    }

    /// `size` units in bytes.
    pub fn to_bytes(self, size: u64) -> (bytes: u64)
        requires
            size * self.factor() <= u64::MAX,
        ensures
            bytes == size * self.factor(),
    {
        match self {
            SizeUnit::Bytes => size,
            SizeUnit::Kilobytes => size * 1024,
            SizeUnit::Megabytes => size * 1_048_576,
            SizeUnit::Gigabytes => size * 1_073_741_824,
        }
    }
}

/// A comparison of the file's length with a size.
///
/// Trigger it on an event that closes the file rather than on creation: a
/// file that is still being written has not reached its length yet.
#[derive(Clone, Copy, Debug, PartialEq, Eq, Structural)]
pub struct FileSizeCondition {
    pub operator: ComparisonOperator,
    pub size: u64,
    pub unit: SizeUnit,
}

impl FileSizeCondition {
    /// The size to compare with, in bytes. It may exceed every length a file
    /// can have.
    pub open spec fn threshold(self) -> int {
        self.size * self.unit.factor()
    }

    /// Whether a file of `len` bytes meets the comparison.
    pub open spec fn satisfied_by(self, len: u64) -> bool {
        compare(self.operator, len as int, self.threshold())
    }

    /// Whether the file that `metadata` describes meets the comparison.
    pub fn is_satisfied(&self, metadata: &FileMetadata) -> (b: bool)
        ensures
            b == self.satisfied_by(metadata.len),
    {
        let file_size = metadata.len;
        if self.unit.fits(self.size) {
            let size_in_bytes = self.unit.to_bytes(self.size);
            match self.operator {
                ComparisonOperator::GreaterThan => file_size > size_in_bytes,
                ComparisonOperator::GreaterThanOrEqual => file_size >= size_in_bytes,
                ComparisonOperator::LessThan => file_size < size_in_bytes,
                ComparisonOperator::LessThanOrEqual => file_size <= size_in_bytes,
                ComparisonOperator::Equal => file_size == size_in_bytes,
                ComparisonOperator::NotEqual => file_size != size_in_bytes,
            }
        } else {
            match self.operator {
                ComparisonOperator::GreaterThan => false,
                ComparisonOperator::GreaterThanOrEqual => false,
                ComparisonOperator::LessThan => true,
                ComparisonOperator::LessThanOrEqual => true,
                ComparisonOperator::Equal => false,
                ComparisonOperator::NotEqual => true,
            }
        }
    }
}

/// The content classes a rule can ask for.
#[derive(Clone, Copy, Debug, PartialEq, Eq, Structural)]
pub enum MatcherTypeInernal {
    App,
    Archive,
    Audio,
    Book,
    Doc,
    Font,
    Image,
    Text,
    Video,
    Custom,
}

/// The class of `infer` that a rule's class stands for.
pub open spec fn matcher_type_of(item: MatcherTypeInernal) -> MatcherType {
    match item {
        MatcherTypeInernal::App => MatcherType::App,
        MatcherTypeInernal::Archive => MatcherType::Archive,
        MatcherTypeInernal::Audio => MatcherType::Audio,
        MatcherTypeInernal::Book => MatcherType::Book,
        MatcherTypeInernal::Doc => MatcherType::Doc,
        MatcherTypeInernal::Font => MatcherType::Font,
        MatcherTypeInernal::Image => MatcherType::Image,
        MatcherTypeInernal::Text => MatcherType::Text,
        MatcherTypeInernal::Video => MatcherType::Video,
        MatcherTypeInernal::Custom => MatcherType::Custom,
    }
}

impl From<&MatcherTypeInernal> for MatcherType {
    fn from(item: &MatcherTypeInernal) -> (r: MatcherType) {
        match item {
            MatcherTypeInernal::App => MatcherType::App,
            MatcherTypeInernal::Archive => MatcherType::Archive,
            MatcherTypeInernal::Audio => MatcherType::Audio,
            MatcherTypeInernal::Book => MatcherType::Book,
            MatcherTypeInernal::Doc => MatcherType::Doc,
            MatcherTypeInernal::Font => MatcherType::Font,
            MatcherTypeInernal::Image => MatcherType::Image,
            MatcherTypeInernal::Text => MatcherType::Text,
            MatcherTypeInernal::Video => MatcherType::Video,
            MatcherTypeInernal::Custom => MatcherType::Custom,
        }
    }
}

impl vstd::std_specs::convert::FromSpecImpl<&MatcherTypeInernal> for MatcherType {
    open spec fn obeys_from_spec() -> bool {
        true
    }

    open spec fn from_spec(item: &MatcherTypeInernal) -> MatcherType {
        matcher_type_of(*item)
    }
}

/// Whether two content classes are the same.
pub fn same_matcher_type(a: &MatcherType, b: &MatcherType) -> (r: bool)
    ensures
        r == (*a == *b),
{
    match (a, b) {
        (MatcherType::App, MatcherType::App) => true,
        (MatcherType::Archive, MatcherType::Archive) => true,
        (MatcherType::Audio, MatcherType::Audio) => true,
        (MatcherType::Book, MatcherType::Book) => true,
        (MatcherType::Doc, MatcherType::Doc) => true,
        (MatcherType::Font, MatcherType::Font) => true,
        (MatcherType::Image, MatcherType::Image) => true,
        (MatcherType::Text, MatcherType::Text) => true,
        (MatcherType::Video, MatcherType::Video) => true,
        (MatcherType::Custom, MatcherType::Custom) => true,
        _ => false,
    }
}

/// A test of the content class of a regular file. Only equality and
/// inequality are meaningful for a class; with any other operator the test is
/// false.
#[derive(Clone, Copy, Debug, PartialEq, Eq, Structural)]
pub struct FileType {
    pub matcher_type: MatcherTypeInernal,
    pub operator: ComparisonOperator,
}

/// What a test of the content class says of the facts: false where no class
/// was recognised.
pub open spec fn file_type_holds(test: FileType, args: CheckArgsView) -> bool {
    match args.file_type {
        Some(found) => match test.operator {
            ComparisonOperator::Equal => matcher_type_of(test.matcher_type) == found,
            ComparisonOperator::NotEqual => matcher_type_of(test.matcher_type) != found,
            _ => false,
        },
        None => false,
    }
}

/// What kind of entry the path is.
#[derive(Clone, Copy, Debug, PartialEq, Eq, Structural)]
pub enum FileSystemEntity {
    /// A regular file of a content class.
    File(FileType),
    /// A directory.
    Directory,
    /// A symbolic link.
    Symlink,
}

/// What a test of the entry's kind says of the facts: for a directory or a
/// link, the metadata's flag, and false without metadata.
pub open spec fn entity_holds(test: FileSystemEntity, args: CheckArgsView) -> bool {
    match test {
        FileSystemEntity::File(file) => file_type_holds(file, args),
        FileSystemEntity::Directory => args.file_metadata matches Some(m) && m.is_dir,
        FileSystemEntity::Symlink => args.file_metadata matches Some(m) && m.is_symlink,
    }
}

/// What a size comparison says of the facts: false without metadata.
pub open spec fn size_holds(test: FileSizeCondition, args: CheckArgsView) -> bool {
    args.file_metadata matches Some(m) && test.satisfied_by(m.len)
}

/// A regular expression that the file's base name is searched for.
#[derive(Debug)]
pub struct FileNamePatternCondition {
    pub pattern: String,
}

impl Clone for FileNamePatternCondition {
    fn clone(&self) -> (copy: Self)
        ensures
            copy.pattern@ == self.pattern@,
    {
        FileNamePatternCondition { pattern: self.pattern.clone() }
    }
}

/// The base name of a path, empty where the path has none.
pub open spec fn base_name(path: Seq<char>) -> Seq<char> {
    match path_file_name(path) {
        Some(name) => name,
        None => Seq::empty(),
    }
}

/// What a name pattern says of a path: the pattern compiles and matches
/// somewhere in the path's base name.
pub open spec fn pattern_holds(pattern: Seq<char>, path: Seq<char>) -> bool {
    regex_accepts(pattern) && regex_finds(pattern, base_name(path))
}

/// What is returned for each outcome of searching the base name: the
/// outcome of the search, and false for a pattern that did not compile.
pub fn pattern_verdict(searched: Option<bool>) -> (b: bool)
    ensures
        b == (searched == Some(true)),
{
    match searched {
        Some(found) => found,
        None => false,
    }
}

impl FileNamePatternCondition {
    /// Whether the pattern matches somewhere in the base name of `file_path`.
    /// A path without a base name is searched as the empty name; a pattern
    /// that does not compile matches nothing.
    pub fn check(&self, file_path: &str) -> (b: bool)
        ensures
            b == pattern_holds(self.pattern@, file_path@),
    {
        let name = match file_name(file_path) {
            Some(name) => name,
            None => String::new(),
        };
        pattern_verdict(regex_search(self.pattern.as_str(), name.as_str()))
    }
}

/// One test of a file.
#[derive(Debug)]
pub enum Condition {
    FileSystemEntity(FileSystemEntity),
    FileSize(FileSizeCondition),
    FileNamePatternCondition(FileNamePatternCondition),
}

/// The mathematical content of a [`Condition`].
pub enum ConditionView {
    FileSystemEntity(FileSystemEntity),
    FileSize(FileSizeCondition),
    FileNamePattern(Seq<char>),
}

impl View for Condition {
    type V = ConditionView;

    open spec fn view(&self) -> ConditionView {
        match self {
            Condition::FileSystemEntity(entity) => ConditionView::FileSystemEntity(*entity),
            Condition::FileSize(size) => ConditionView::FileSize(*size),
            Condition::FileNamePatternCondition(name) => ConditionView::FileNamePattern(
                name.pattern@,
            ),
        }
    }
}

impl Clone for Condition {
    fn clone(&self) -> (copy: Self)
        ensures
            copy@ == self@,
    {
        match self {
            Condition::FileSystemEntity(entity) => Condition::FileSystemEntity(*entity),
            Condition::FileSize(size) => Condition::FileSize(*size),
            Condition::FileNamePatternCondition(name) => Condition::FileNamePatternCondition(
                name.clone(),
            ),
        }
    }
}

/// What one test says of the facts.
pub open spec fn condition_holds(test: ConditionView, args: CheckArgsView) -> bool {
    match test {
        ConditionView::FileSystemEntity(entity) => entity_holds(entity, args),
        ConditionView::FileSize(size) => size_holds(size, args),
        ConditionView::FileNamePattern(pattern) => pattern_holds(pattern, args.file_path),
    }
}

// ---------------------------------------------------------------------------
// Groups and the tree
// ---------------------------------------------------------------------------

/// How a group combines its members.
#[derive(Clone, Copy, Debug, PartialEq, Eq, Structural)]
pub enum ConditionType {
    /// At least one member holds.
    Or,
    /// Every member holds.
    And,
}

/// A node of the condition tree: one test, or a group of nodes.
#[derive(Debug)]
pub enum ConditionOrConditionsGroup {
    Condition(Condition),
    ConditionGroup(ConditionsGroup),
}

/// A group of nodes under one connective.
#[derive(Debug)]
pub struct ConditionsGroup {
    pub cond_type: ConditionType,
    pub conditions: Vec<ConditionOrConditionsGroup>,
}

/// The mathematical content of a condition tree.
pub enum ConditionNode {
    Leaf(ConditionView),
    Group(ConditionType, Seq<ConditionNode>),
}

/// The tree that a node stands for.
pub open spec fn node_view(node: ConditionOrConditionsGroup) -> ConditionNode
    decreases node,
{
    match node {
        ConditionOrConditionsGroup::Condition(test) => ConditionNode::Leaf(test@),
        ConditionOrConditionsGroup::ConditionGroup(group) => ConditionNode::Group(
            group.cond_type,
            Seq::new(
                group.conditions.len() as nat,
                |i: int|
                    if 0 <= i < group.conditions.len() {
                        node_view(group.conditions[i])
                    } else {
                        ConditionNode::Group(ConditionType::And, Seq::empty())
                    },
            ),
        ),
    }
}

impl View for ConditionOrConditionsGroup {
    type V = ConditionNode;

    open spec fn view(&self) -> ConditionNode {
        node_view(*self)
    }
}

impl View for ConditionsGroup {
    type V = ConditionNode;

    open spec fn view(&self) -> ConditionNode {
        node_view(ConditionOrConditionsGroup::ConditionGroup(*self))
    }
}

/// What a condition tree says of the facts. A leaf says what its test says.
/// An `And` group holds when every member holds, so an empty one holds; an
/// `Or` group holds when some member holds, so an empty one does not.
pub open spec fn node_holds(node: ConditionNode, args: CheckArgsView) -> bool
    decreases node,
{
    match node {
        ConditionNode::Leaf(test) => condition_holds(test, args),
        ConditionNode::Group(ConditionType::And, members) => forall|i: int|
            0 <= i < members.len() ==> node_holds(#[trigger] members[i], args),
        ConditionNode::Group(ConditionType::Or, members) => exists|i: int|
            0 <= i < members.len() && node_holds(#[trigger] members[i], args),
    }
}

/// A group holds as its connective says of its members.
pub proof fn lemma_group_holds(cond_type: ConditionType, members: Seq<ConditionNode>, args: CheckArgsView)
    ensures
        node_holds(ConditionNode::Group(cond_type, members), args) == match cond_type {
            ConditionType::And => forall|i: int|
                0 <= i < members.len() ==> node_holds(#[trigger] members[i], args),
            ConditionType::Or => exists|i: int|
                0 <= i < members.len() && node_holds(#[trigger] members[i], args),
        },
{
    let group = ConditionNode::Group(cond_type, members);
    assert(decreases_to!(group => group->Group_1));
    assert forall|i: int| 0 <= i < members.len() implies decreases_to!(group => #[trigger] members[i]) by {
        assert(decreases_to!(members => members[i]));
    }
}

/// The members of a group's tree are the trees of the group's members.
pub proof fn lemma_group_view(group: ConditionsGroup)
    ensures
        group@ matches ConditionNode::Group(cond_type, members) && cond_type == group.cond_type
            && members.len() == group.conditions.len() && (forall|i: int|
            0 <= i < members.len() ==> #[trigger] members[i] == group.conditions[i]@),
{
}

impl Clone for ConditionOrConditionsGroup {
    fn clone(&self) -> (copy: Self)
        ensures
            copy@ == self@,
        decreases self,
    {
        match self {
            ConditionOrConditionsGroup::Condition(test) => ConditionOrConditionsGroup::Condition(
                test.clone(),
            ),
            ConditionOrConditionsGroup::ConditionGroup(group) => {
                ConditionOrConditionsGroup::ConditionGroup(group.clone())
            },
        }
    }
}

impl Clone for ConditionsGroup {
    fn clone(&self) -> (copy: Self)
        ensures
            copy@ == self@,
        decreases self,
    {
        let mut conditions: Vec<ConditionOrConditionsGroup> = Vec::new();
        let mut i: usize = 0;
        while i < self.conditions.len()
            invariant
                i <= self.conditions.len(),
                conditions.len() == i,
                forall|j: int| 0 <= j < i ==> (#[trigger] conditions[j])@ == self.conditions[j]@,
                forall|j: int|
                    0 <= j < self.conditions.len() ==> decreases_to!(self => #[trigger] self.conditions[j]),
            decreases self.conditions.len() - i,
        {
            conditions.push(self.conditions[i].clone());
            i += 1;
        }
        let copy = ConditionsGroup { cond_type: self.cond_type, conditions };
        proof {
            lemma_group_view(*self);
            lemma_group_view(copy);
            assert(copy@->Group_1 =~= self@->Group_1);
        }
        copy
    }
}

/// Something that can be asked whether it holds of a file.
pub trait ConditionChecker {
    /// What the answer is.
    spec fn holds(&self, args: &CheckArgs) -> bool;

    /// Answers for the facts in `args`.
    fn check(&self, args: &CheckArgs) -> (b: bool)
        ensures
            b == self.holds(args),
    ;
}

impl ConditionChecker for FileType {
    open spec fn holds(&self, args: &CheckArgs) -> bool {
        file_type_holds(*self, args@)
    }

    fn check(&self, args: &CheckArgs) -> (b: bool) {
        match &args.file_type {
            Some(file_type) => {
                let wanted = MatcherType::from(&self.matcher_type);
                match self.operator {
                    ComparisonOperator::Equal => same_matcher_type(&wanted, file_type),
                    ComparisonOperator::NotEqual => !same_matcher_type(&wanted, file_type),
                    _ => false,
                }
            },
            None => false,
        }
    }
}

impl ConditionChecker for FileSystemEntity {
    open spec fn holds(&self, args: &CheckArgs) -> bool {
        entity_holds(*self, args@)
    }

    fn check(&self, args: &CheckArgs) -> (b: bool) {
        match self {
            FileSystemEntity::File(file) => file.check(args),
            FileSystemEntity::Directory => match &args.file_metadata {
                Some(metadata) => metadata.is_dir,
                None => false,
            },
            FileSystemEntity::Symlink => match &args.file_metadata {
                Some(metadata) => metadata.is_symlink,
                None => false,
            },
        }
    }
}

impl ConditionChecker for FileSizeCondition {
    open spec fn holds(&self, args: &CheckArgs) -> bool {
        size_holds(*self, args@)
    }

    fn check(&self, args: &CheckArgs) -> (b: bool) {
        match &args.file_metadata {
            Some(metadata) => self.is_satisfied(metadata),
            None => false,
        }
    }
}

impl Condition {
    /// Whether the test holds of the facts in `args`.
    pub fn check(&self, args: &CheckArgs) -> (b: bool)
        ensures
            b == condition_holds(self@, args@),
    {
        match self {
            Condition::FileSystemEntity(file_system_entity) => file_system_entity.check(args),
            Condition::FileSize(file_size) => file_size.check(args),
            Condition::FileNamePatternCondition(pattern) => pattern.check(args.file_path.as_str()),
        }
    }
}

/// Evaluates a node of the tree.
fn check_node(node: &ConditionOrConditionsGroup, args: &CheckArgs) -> (b: bool)
    ensures
        b == node_holds(node@, args@),
    decreases node,
{
    match node {
        ConditionOrConditionsGroup::Condition(cond) => cond.check(args),
        ConditionOrConditionsGroup::ConditionGroup(group) => check_group(group, args),
    }
}

/// Evaluates a group: its members in order, stopping at the first that
/// decides the group.
fn check_group(group: &ConditionsGroup, args: &CheckArgs) -> (b: bool)
    ensures
        b == node_holds(group@, args@),
    decreases group,
{
    let ghost members = group@->Group_1;
    proof {
        lemma_group_view(*group);
    }
    let mut i: usize = 0;
    match group.cond_type {
        ConditionType::Or => {
            while i < group.conditions.len()
                invariant
                    i <= group.conditions.len(),
                    group@ == ConditionNode::Group(ConditionType::Or, members),
                    members.len() == group.conditions.len(),
                    forall|j: int|
                        0 <= j < members.len() ==> #[trigger] members[j] == group.conditions[j]@,
                    forall|j: int| 0 <= j < i ==> !node_holds(#[trigger] members[j], args@),
                    forall|j: int|
                        0 <= j < group.conditions.len() ==> decreases_to!(group => #[trigger] group.conditions[j]),
                decreases group.conditions.len() - i,
            {
                if check_node(&group.conditions[i], args) {
                    proof {
                        lemma_group_holds(ConditionType::Or, members, args@);
                        assert(node_holds(members[i as int], args@));
                    }
                    return true;
                }
                i += 1;
            }
            proof {
                lemma_group_holds(ConditionType::Or, members, args@);
            }
            false
        },
        ConditionType::And => {
            while i < group.conditions.len()
                invariant
                    i <= group.conditions.len(),
                    group@ == ConditionNode::Group(ConditionType::And, members),
                    members.len() == group.conditions.len(),
                    forall|j: int|
                        0 <= j < members.len() ==> #[trigger] members[j] == group.conditions[j]@,
                    forall|j: int| 0 <= j < i ==> node_holds(#[trigger] members[j], args@),
                    forall|j: int|
                        0 <= j < group.conditions.len() ==> decreases_to!(group => #[trigger] group.conditions[j]),
                decreases group.conditions.len() - i,
            {
                if !check_node(&group.conditions[i], args) {
                    proof {
                        lemma_group_holds(ConditionType::And, members, args@);
                        assert(!node_holds(members[i as int], args@));
                    }
                    return false;
                }
                i += 1;
            }
            proof {
                lemma_group_holds(ConditionType::And, members, args@);
            }
            true
        },
    }
}

impl ConditionChecker for ConditionOrConditionsGroup {
    open spec fn holds(&self, args: &CheckArgs) -> bool {
        node_holds(self@, args@)
    }

    fn check(&self, args: &CheckArgs) -> (b: bool) {
        check_node(self, args)
    }
}

impl ConditionChecker for ConditionsGroup {
    open spec fn holds(&self, args: &CheckArgs) -> bool {
        node_holds(self@, args@)
    }

    fn check(&self, args: &CheckArgs) -> (b: bool) {
        check_group(self, args)
    }
}

// ---------------------------------------------------------------------------
// Laws of evaluation
// ---------------------------------------------------------------------------

/// Evaluation depends on nothing but the tree and the facts: two trees with
/// the same content, asked about facts with the same content, give the same
/// answer. In particular asking twice gives the same answer twice.
pub proof fn lemma_evaluation_is_a_function(
    first: ConditionOrConditionsGroup,
    second: ConditionOrConditionsGroup,
    first_args: CheckArgs,
    second_args: CheckArgs,
)
    requires
        first@ == second@,
        first_args@ == second_args@,
    ensures
        first.holds(&first_args) == second.holds(&second_args),
{
}

/// A group with one member says what the member says, whatever the
/// connective.
pub proof fn lemma_single_member_group(cond_type: ConditionType, member: ConditionNode, args: CheckArgsView)
    ensures
        node_holds(ConditionNode::Group(cond_type, seq![member]), args) == node_holds(member, args),
{
    let members = seq![member];
    lemma_group_holds(cond_type, members, args);
    assert(members[0] == member);
}

/// An empty `And` group holds and an empty `Or` group does not.
pub proof fn lemma_empty_group(args: CheckArgsView)
    ensures
        node_holds(ConditionNode::Group(ConditionType::And, Seq::empty()), args),
        !node_holds(ConditionNode::Group(ConditionType::Or, Seq::empty()), args),
{
    lemma_group_holds(ConditionType::And, Seq::empty(), args);
    lemma_group_holds(ConditionType::Or, Seq::empty(), args);
}

} // verus!
