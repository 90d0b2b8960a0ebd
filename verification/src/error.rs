//! The errors that the library returns.

use crate::text;
use vstd::prelude::*;

verus! {

/// An error with the text to show for it.
#[derive(Debug)]
pub enum AppError {
    /// A plain message.
    Message(String),
    /// A text that is not TOML, with the file it stands for and what is wrong with it.
    Toml { path: String, detail: String },
    /// A message in two languages, with the key to look it up.
    Localized { key: String, zh: String, en: String },
}

/// What an [`AppError`] stands for.
pub enum ErrorView {
    Message(Seq<char>),
    Toml { path: Seq<char>, detail: Seq<char> },
    Localized { key: Seq<char>, zh: Seq<char>, en: Seq<char> },
}

impl AppError {
    pub open spec fn view(&self) -> ErrorView {
        match self {
            AppError::Message(m) => ErrorView::Message(m@),
            AppError::Toml { path, detail } => ErrorView::Toml { path: path@, detail: detail@ },
            AppError::Localized { key, zh, en } => ErrorView::Localized {
                key: key@,
                zh: zh@,
                en: en@,
            },
        }
    }

    /// A copy of the error.
    pub fn copy(&self) -> (r: AppError)
        ensures
            r@ == self@,
    {
        match self {
            AppError::Message(m) => AppError::Message(m.clone()),
            AppError::Toml { path, detail } => AppError::Toml {
                path: path.clone(),
                detail: detail.clone(),
            },
            AppError::Localized { key, zh, en } => AppError::Localized {
                key: key.clone(),
                zh: zh.clone(),
                en: en.clone(),
            },
        }
    }

    /// The text to show: a plain message as it is, another error with what it is about.
    pub fn message(&self) -> (r: String)
        ensures
            r@ == match self@ {
                ErrorView::Message(m) => m,
                ErrorView::Toml { path, detail } => path + ": "@ + detail,
                ErrorView::Localized { key, zh, en } => en,
            },
    {
        match self {
            AppError::Message(m) => m.clone(),
            AppError::Toml { path, detail } => {
                let mut out = text::join2(path.as_str(), ": ");
                out.push_str(detail.as_str());
                out
            },
            AppError::Localized { en, .. } => en.clone(),
        }
    }
}

/// What a result with a text stands for.
pub open spec fn text_result(r: Result<String, AppError>) -> Result<Seq<char>, ErrorView> {
    match r {
        Ok(s) => Ok(s@),
        Err(e) => Err(e@),
    }
}

/// What a result without a value stands for.
pub open spec fn unit_result(r: Result<(), AppError>) -> Result<(), ErrorView> {
    match r {
        Ok(()) => Ok(()),
        Err(e) => Err(e@),
    }
}

} // verus!
