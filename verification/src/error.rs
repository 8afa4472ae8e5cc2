//! The error type that the parts of the shell share.

use crate::text;
use vstd::prelude::*;

verus! {

/// Raised where a step cannot go on.
#[derive(Debug)]
pub enum AppError {
    GitHub(String),
    Io(String),
    Kernel(String),
    Plugin(String),
    Skill(String),
    Update(String),
}

/// The content of an error.
#[verifier::ext_equal]
pub enum ErrorModel {
    GitHub(Seq<char>),
    Io(Seq<char>),
    Kernel(Seq<char>),
    Plugin(Seq<char>),
    Skill(Seq<char>),
    Update(Seq<char>),
}

impl View for AppError {
    type V = ErrorModel;

    open spec fn view(&self) -> ErrorModel {
        match self {
            AppError::GitHub(e) => ErrorModel::GitHub(e@),
            AppError::Io(e) => ErrorModel::Io(e@),
            AppError::Kernel(e) => ErrorModel::Kernel(e@),
            AppError::Plugin(e) => ErrorModel::Plugin(e@),
            AppError::Skill(e) => ErrorModel::Skill(e@),
            AppError::Update(e) => ErrorModel::Update(e@),
        }
    }
}

/// What the user reads of an error.
pub open spec fn error_text(e: ErrorModel) -> Seq<char> {
    match e {
        ErrorModel::GitHub(d) => "GitHub 请求失败："@ + d,
        ErrorModel::Io(d) => "I/O 错误："@ + d,
        ErrorModel::Kernel(d) => "内核错误："@ + d,
        ErrorModel::Plugin(d) => "插件错误："@ + d,
        ErrorModel::Skill(d) => "技能错误："@ + d,
        ErrorModel::Update(d) => "桌面端更新错误："@ + d,
    }
}

impl AppError {
    /// What the user reads.
    pub fn message(&self) -> (r: String)
        ensures
            r@ == error_text(self@),
    {
        match self {
            AppError::GitHub(d) => text::cat2("GitHub 请求失败：", d.as_str()),
            AppError::Io(d) => text::cat2("I/O 错误：", d.as_str()),
            AppError::Kernel(d) => text::cat2("内核错误：", d.as_str()),
            AppError::Plugin(d) => text::cat2("插件错误：", d.as_str()),
            AppError::Skill(d) => text::cat2("技能错误：", d.as_str()),
            AppError::Update(d) => text::cat2("桌面端更新错误：", d.as_str()),
        }
    }
}

/// The detail of an error.
pub open spec fn detail_of(e: ErrorModel) -> Seq<char> {
    match e {
        ErrorModel::GitHub(d) => d,
        ErrorModel::Io(d) => d,
        ErrorModel::Kernel(d) => d,
        ErrorModel::Plugin(d) => d,
        ErrorModel::Skill(d) => d,
        ErrorModel::Update(d) => d,
    }
}

/// What the user reads of an error ends with its detail, and errors that differ
/// are read differently.
pub proof fn law_errors_are_told_apart(a: ErrorModel, b: ErrorModel)
    ensures
        error_text(a) == error_text(b) <==> a == b,
        ({
            let t = error_text(a);
            let d = detail_of(a);
            d.len() < t.len() && t.subrange(t.len() - d.len(), t.len() as int) == d
        }),
{
    reveal_strlit("GitHub 请求失败：");
    reveal_strlit("I/O 错误：");
    reveal_strlit("内核错误：");
    reveal_strlit("插件错误：");
    reveal_strlit("技能错误：");
    reveal_strlit("桌面端更新错误：");
    let x = error_text(a);
    let y = error_text(b);
    let d = detail_of(a);
    let e = detail_of(b);
    assert(x.subrange(x.len() - d.len(), x.len() as int) =~= d);
    assert(y.subrange(y.len() - e.len(), y.len() as int) =~= e);
    if x == y {
        assert(x[0] == y[0]);
    }
}

} // verus!
