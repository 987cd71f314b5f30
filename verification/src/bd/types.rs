//! The payloads of `bd --json`.
use vstd::prelude::*;
use vstd::string::*;
use crate::text::{copy_opt_text, copy_texts, decimal, decimal_text, opt_text, texts};

verus! {

/// An issue as summarized by `bd ready` and `bd search`. Priority 0 is the
/// highest.
#[derive(Debug, PartialEq, Eq)]
pub struct Issue {
    pub id: String,
    pub title: String,
    pub status: String,
    pub priority: i64,
    pub description: Option<String>,
    pub issue_type: Option<String>,
    pub owner: Option<String>,
    pub labels: Vec<String>,
    pub created_at: Option<String>,
    pub created_by: Option<String>,
    pub updated_at: Option<String>,
    pub dependency_count: Option<i64>,
    pub dependent_count: Option<i64>,
    pub comment_count: Option<i64>,
}

/// What an [`Issue`] holds.
pub struct IssueModel {
    pub id: Seq<char>,
    pub title: Seq<char>,
    pub status: Seq<char>,
    pub priority: int,
    pub description: Option<Seq<char>>,
    pub issue_type: Option<Seq<char>>,
    pub owner: Option<Seq<char>>,
    pub labels: Seq<Seq<char>>,
    pub created_at: Option<Seq<char>>,
    pub created_by: Option<Seq<char>>,
    pub updated_at: Option<Seq<char>>,
    pub dependency_count: Option<i64>,
    pub dependent_count: Option<i64>,
    pub comment_count: Option<i64>,
}

impl View for Issue {
    type V = IssueModel;

    open spec fn view(&self) -> IssueModel {
        IssueModel {
            id: self.id@,
            title: self.title@,
            status: self.status@,
            priority: self.priority as int,
            description: opt_text(self.description),
            issue_type: opt_text(self.issue_type),
            owner: opt_text(self.owner),
            labels: texts(self.labels@),
            created_at: opt_text(self.created_at),
            created_by: opt_text(self.created_by),
            updated_at: opt_text(self.updated_at),
            dependency_count: self.dependency_count,
            dependent_count: self.dependent_count,
            comment_count: self.comment_count,
        }
    }
}

/// What a list of issues holds.
pub open spec fn issues_view(v: Seq<Issue>) -> Seq<IssueModel> {
    v.map_values(|i: Issue| i@)
}

impl Clone for Issue {
    fn clone(&self) -> (res: Issue)
        ensures
            res@ == self@,
    {
        Issue {
            id: self.id.clone(),
            title: self.title.clone(),
            status: self.status.clone(),
            priority: self.priority,
            description: copy_opt_text(&self.description),
            issue_type: copy_opt_text(&self.issue_type),
            owner: copy_opt_text(&self.owner),
            labels: copy_texts(&self.labels),
            created_at: copy_opt_text(&self.created_at),
            created_by: copy_opt_text(&self.created_by),
            updated_at: copy_opt_text(&self.updated_at),
            dependency_count: self.dependency_count,
            dependent_count: self.dependent_count,
            comment_count: self.comment_count,
        }
    }
}

/// A dependency embedded in a `bd show` payload: the linked issue and how it
/// is linked (such as `blocks`).
#[derive(Debug, PartialEq, Eq)]
pub struct Dependency {
    pub id: String,
    pub title: Option<String>,
    pub status: Option<String>,
    pub dependency_type: Option<String>,
}

/// What a [`Dependency`] holds.
pub struct DependencyModel {
    pub id: Seq<char>,
    pub title: Option<Seq<char>>,
    pub status: Option<Seq<char>>,
    pub dependency_type: Option<Seq<char>>,
}

impl View for Dependency {
    type V = DependencyModel;

    open spec fn view(&self) -> DependencyModel {
        DependencyModel {
            id: self.id@,
            title: opt_text(self.title),
            status: opt_text(self.status),
            dependency_type: opt_text(self.dependency_type),
        }
    }
}

impl Clone for Dependency {
    fn clone(&self) -> (res: Dependency)
        ensures
            res@ == self@,
    {
        Dependency {
            id: self.id.clone(),
            title: copy_opt_text(&self.title),
            status: copy_opt_text(&self.status),
            dependency_type: copy_opt_text(&self.dependency_type),
        }
    }
}

/// One element of a `bd show` payload: an issue and its dependencies.
#[derive(Debug, PartialEq, Eq)]
pub struct IssueDetail {
    pub issue: Issue,
    pub dependencies: Vec<Dependency>,
}

/// What an [`IssueDetail`] holds.
pub struct IssueDetailModel {
    pub issue: IssueModel,
    pub dependencies: Seq<DependencyModel>,
}

impl View for IssueDetail {
    type V = IssueDetailModel;

    open spec fn view(&self) -> IssueDetailModel {
        IssueDetailModel {
            issue: self.issue@,
            dependencies: self.dependencies@.map_values(|d: Dependency| d@),
        }
    }
}

impl Clone for IssueDetail {
    fn clone(&self) -> (res: IssueDetail)
        ensures
            res@ == self@,
    {
        let mut dependencies: Vec<Dependency> = Vec::new();
        let mut i: usize = 0;
        while i < self.dependencies.len()
            invariant
                i <= self.dependencies.len(),
                dependencies.len() == i,
                forall|k: int| 0 <= k < i ==> #[trigger] dependencies@[k]@ == self.dependencies@[k]@,
            decreases self.dependencies.len() - i,
        {
            dependencies.push(self.dependencies[i].clone());
            i += 1;
        }
        let res = IssueDetail { issue: self.issue.clone(), dependencies };
        assert(res@.dependencies =~= self@.dependencies);
        res
    }
}

impl IssueDetail {
    /// Collapses the array that `bd show` answers with into its one element;
    /// any other number of elements is an error that says how many there were.
    pub fn into_single(v: Vec<IssueDetail>) -> (res: Result<IssueDetail, BdShapeError>)
        ensures
            v@.len() == 1 ==> res == Ok::<IssueDetail, BdShapeError>(v@[0]),
            v@.len() != 1 ==> (res matches Err(BdShapeError::ExpectedOne { got }) && got
                == v@.len()),
    {
        let mut v = v;
        let got: usize = v.len();
        if got == 1 {
            match v.pop() {
                Some(one) => Ok(one),
                None => Err(BdShapeError::ExpectedOne { got }),
            }
        } else {
            Err(BdShapeError::ExpectedOne { got })
        }
    }
}

/// The answer of `bd version`.
#[derive(Debug, Clone, PartialEq, Eq)]
pub struct BdVersion {
    pub version: String,
    pub schema_version: i64,
    pub build: Option<String>,
    pub commit: Option<String>,
    pub branch: Option<String>,
}

/// A payload whose shape is not the expected one.
#[derive(Debug, Clone, Copy, PartialEq, Eq, Structural)]
pub enum BdShapeError {
    /// `bd show` answered with another number of issues than one.
    ExpectedOne { got: usize },
}

impl BdShapeError {
    /// The error in words.
    pub fn message(&self) -> (res: String)
        ensures
            res@ == (match *self {
                BdShapeError::ExpectedOne { got } => "expected exactly one issue from 'bd show', got "@
                    + decimal(got as nat),
            }),
    {
        match self {
            BdShapeError::ExpectedOne { got } => {
                let mut out = String::from_str("expected exactly one issue from 'bd show', got ");
                let digits = decimal_text(*got as u64);
                out.append(digits.as_str());
                out
            },
        }
    }
}

/// What is said of an issue is what the issue holds, each part in its own place.
pub proof fn law_an_issue_is_told_as_it_is(issue: Issue)
    ensures
        issue@.id == issue.id@,
        issue@.title == issue.title@,
        issue@.status == issue.status@,
        issue@.priority == issue.priority,
        issue@.description is Some <==> issue.description is Some,
        issue.description matches Some(text) ==> issue@.description == Some(text@),
        issue@.updated_at is Some <==> issue.updated_at is Some,
        issue.updated_at matches Some(time) ==> issue@.updated_at == Some(time@),
{
}

} // verus!
