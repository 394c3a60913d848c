//! How the enumerations of an issue are written in the database.
use vstd::prelude::*;
use vstd::string::*;

verus! {

/// How urgent an issue is.
#[derive(Clone, Copy, Debug, PartialEq, Eq, Structural)]
pub enum IssuePriority {
    Highest,
    High,
    Medium,
    Low,
    Lowest,
}

/// What kind of work an issue is.
#[derive(Clone, Copy, Debug, PartialEq, Eq, Structural)]
pub enum IssueType {
    Task,
    Bug,
    Story,
}

/// Where an issue stands, on a board with the four fixed columns.
#[derive(Clone, Copy, Debug, PartialEq, Eq, Structural)]
pub enum IssueStatus {
    Backlog,
    Selected,
    InProgress,
    Done,
}

/// The column held no value where one was required.
#[derive(Clone, Copy, Debug, PartialEq, Eq, Structural)]
pub struct UnexpectedNull;

/// Whether two byte strings are the same.
pub fn same_bytes(a: &[u8], b: &[u8]) -> (r: bool)
    ensures
        r == (a@ == b@),
{
    if a.len() != b.len() {
        return false;
    }
    let mut k: usize = 0;
    while k < a.len()
        invariant
            k <= a@.len(),
            a@.len() == b@.len(),
            forall|j: int| 0 <= j < k ==> a@[j] == b@[j],
        decreases a@.len() - k,
    {
        if a[k] != b[k] {
            return false;
        }
        k += 1;
    }
    assert(a@ =~= b@);
    true
}

/// Whether the bytes spell the word.
pub fn spells(bytes: &[u8], word: &str) -> (r: bool)
    ensures
        r == (bytes@ == word.spec_bytes()),
{
    same_bytes(bytes, word.as_bytes())
}

/// The priority that a stored value stands for: its name or its rank from
/// 5 to 1, and the lowest for anything else.
pub open spec fn priority_of(bytes: Seq<u8>) -> IssuePriority {
    if bytes == "5".spec_bytes() || bytes == "highest".spec_bytes() {
        IssuePriority::Highest
    } else if bytes == "4".spec_bytes() || bytes == "high".spec_bytes() {
        IssuePriority::High
    } else if bytes == "3".spec_bytes() || bytes == "medium".spec_bytes() {
        IssuePriority::Medium
    } else if bytes == "2".spec_bytes() || bytes == "low".spec_bytes() {
        IssuePriority::Low
    } else {
        IssuePriority::Lowest
    }
}

/// The name under which a priority is stored.
pub open spec fn priority_bytes(priority: IssuePriority) -> Seq<u8> {
    match priority {
        IssuePriority::Highest => "highest".spec_bytes(),
        IssuePriority::High => "high".spec_bytes(),
        IssuePriority::Medium => "medium".spec_bytes(),
        IssuePriority::Low => "low".spec_bytes(),
        IssuePriority::Lowest => "lowest".spec_bytes(),
    }
}

/// Reads a stored priority; a missing value is an error.
pub fn issue_priority_from_sql(bytes: Option<&[u8]>) -> (r: Result<IssuePriority, UnexpectedNull>)
    ensures
        match bytes {
            Some(b) => r == Ok::<IssuePriority, UnexpectedNull>(priority_of(b@)),
            None => r is Err,
        },
{
    let b = match bytes {
        Some(b) => b,
        None => {
            return Err(UnexpectedNull);
        },
    };
    if spells(b, "5") || spells(b, "highest") {
        Ok(IssuePriority::Highest)
    } else if spells(b, "4") || spells(b, "high") {
        Ok(IssuePriority::High)
    } else if spells(b, "3") || spells(b, "medium") {
        Ok(IssuePriority::Medium)
    } else if spells(b, "2") || spells(b, "low") {
        Ok(IssuePriority::Low)
    } else {
        Ok(IssuePriority::Lowest)
    }
}

/// The bytes that store a priority.
pub fn issue_priority_to_sql(priority: IssuePriority) -> (out: Vec<u8>)
    ensures
        out@ == priority_bytes(priority),
{
    match priority {
        IssuePriority::Highest => "highest".as_bytes_vec(),
        IssuePriority::High => "high".as_bytes_vec(),
        IssuePriority::Medium => "medium".as_bytes_vec(),
        IssuePriority::Low => "low".as_bytes_vec(),
        IssuePriority::Lowest => "lowest".as_bytes_vec(),
    }
}

/// The type that a stored value stands for: its name, and a task for
/// anything else.
pub open spec fn type_of(bytes: Seq<u8>) -> IssueType {
    if bytes == "bug".spec_bytes() {
        IssueType::Bug
    } else if bytes == "story".spec_bytes() {
        IssueType::Story
    } else {
        IssueType::Task
    }
}

/// The name under which a type is stored.
pub open spec fn type_bytes(issue_type: IssueType) -> Seq<u8> {
    match issue_type {
        IssueType::Task => "task".spec_bytes(),
        IssueType::Story => "story".spec_bytes(),
        IssueType::Bug => "bug".spec_bytes(),
    }
}

/// Reads a stored type; a missing value is an error.
pub fn issue_type_from_sql(bytes: Option<&[u8]>) -> (r: Result<IssueType, UnexpectedNull>)
    ensures
        match bytes {
            Some(b) => r == Ok::<IssueType, UnexpectedNull>(type_of(b@)),
            None => r is Err,
        },
{
    let b = match bytes {
        Some(b) => b,
        None => {
            return Err(UnexpectedNull);
        },
    };
    if spells(b, "bug") {
        Ok(IssueType::Bug)
    } else if spells(b, "story") {
        Ok(IssueType::Story)
    } else {
        Ok(IssueType::Task)
    }
}

/// The bytes that store a type.
pub fn issue_type_to_sql(issue_type: IssueType) -> (out: Vec<u8>)
    ensures
        out@ == type_bytes(issue_type),
{
    match issue_type {
        IssueType::Task => "task".as_bytes_vec(),
        IssueType::Story => "story".as_bytes_vec(),
        IssueType::Bug => "bug".as_bytes_vec(),
    }
}

/// The status that a stored value stands for: its name, with or without the
/// underscore for the one in progress, and the backlog for anything else.
pub open spec fn status_of(bytes: Seq<u8>) -> IssueStatus {
    if bytes == "selected".spec_bytes() {
        IssueStatus::Selected
    } else if bytes == "in_progress".spec_bytes() || bytes == "inprogress".spec_bytes() {
        IssueStatus::InProgress
    } else if bytes == "done".spec_bytes() {
        IssueStatus::Done
    } else {
        IssueStatus::Backlog
    }
}

/// The name under which a status is stored.
pub open spec fn status_bytes(status: IssueStatus) -> Seq<u8> {
    match status {
        IssueStatus::Backlog => "backlog".spec_bytes(),
        IssueStatus::Selected => "selected".spec_bytes(),
        IssueStatus::InProgress => "in_progress".spec_bytes(),
        IssueStatus::Done => "done".spec_bytes(),
    }
}

/// Reads a stored status; a missing value is an error.
pub fn issue_status_from_sql(bytes: Option<&[u8]>) -> (r: Result<IssueStatus, UnexpectedNull>)
    ensures
        match bytes {
            Some(b) => r == Ok::<IssueStatus, UnexpectedNull>(status_of(b@)),
            None => r is Err,
        },
{
    let b = match bytes {
        Some(b) => b,
        None => {
            return Err(UnexpectedNull);
        },
    };
    if spells(b, "selected") {
        Ok(IssueStatus::Selected)
    } else if spells(b, "in_progress") || spells(b, "inprogress") {
        Ok(IssueStatus::InProgress)
    } else if spells(b, "done") {
        Ok(IssueStatus::Done)
    } else {
        Ok(IssueStatus::Backlog)
    }
}

/// The bytes that store a status.
pub fn issue_status_to_sql(status: IssueStatus) -> (out: Vec<u8>)
    ensures
        out@ == status_bytes(status),
{
    match status {
        IssueStatus::Backlog => "backlog".as_bytes_vec(),
        IssueStatus::Selected => "selected".as_bytes_vec(),
        IssueStatus::InProgress => "in_progress".as_bytes_vec(),
        IssueStatus::Done => "done".as_bytes_vec(),
    }
}

proof fn lemma_priority_words()
    ensures
        "5".spec_bytes() == seq!['5' as u8],
        "4".spec_bytes() == seq!['4' as u8],
        "3".spec_bytes() == seq!['3' as u8],
        "2".spec_bytes() == seq!['2' as u8],
        "highest".spec_bytes().len() == 7,
        "high".spec_bytes().len() == 4,
        "medium".spec_bytes().len() == 6,
        "low".spec_bytes().len() == 3,
        "lowest".spec_bytes().len() == 6,
        "medium".spec_bytes()[0] == 'm' as u8,
        "lowest".spec_bytes()[0] == 'l' as u8,
{
    broadcast use vstd::string::group_string_axioms;

    reveal_strlit("5");
    reveal_strlit("4");
    reveal_strlit("3");
    reveal_strlit("2");
    reveal_strlit("highest");
    reveal_strlit("high");
    reveal_strlit("medium");
    reveal_strlit("low");
    reveal_strlit("lowest");
    assert(is_ascii("5") && is_ascii("4") && is_ascii("3") && is_ascii("2"));
    assert(is_ascii("highest") && is_ascii("high") && is_ascii("medium") && is_ascii("low")
        && is_ascii("lowest"));
}

/// A priority is read back as it was written.
pub proof fn priority_reads_back(priority: IssuePriority)
    ensures
        priority_of(priority_bytes(priority)) == priority,
{
    lemma_priority_words();
}

/// A type is read back as it was written.
pub proof fn type_reads_back(issue_type: IssueType)
    ensures
        type_of(type_bytes(issue_type)) == issue_type,
{
    broadcast use vstd::string::group_string_axioms;

    reveal_strlit("task");
    reveal_strlit("bug");
    reveal_strlit("story");
    assert(is_ascii("task") && is_ascii("bug") && is_ascii("story"));
    assert("task".spec_bytes().len() == 4);
    assert("bug".spec_bytes().len() == 3);
    assert("story".spec_bytes().len() == 5);
}

/// A status is read back as it was written.
pub proof fn status_reads_back(status: IssueStatus)
    ensures
        status_of(status_bytes(status)) == status,
{
    broadcast use vstd::string::group_string_axioms;

    reveal_strlit("backlog");
    reveal_strlit("selected");
    reveal_strlit("in_progress");
    reveal_strlit("inprogress");
    reveal_strlit("done");
    assert(is_ascii("backlog") && is_ascii("selected") && is_ascii("in_progress") && is_ascii(
        "inprogress",
    ) && is_ascii("done"));
    assert("backlog".spec_bytes().len() == 7);
    assert("selected".spec_bytes().len() == 8);
    assert("in_progress".spec_bytes().len() == 11);
    assert("inprogress".spec_bytes().len() == 10);
    assert("done".spec_bytes().len() == 4);
}

} // verus!
