//! The log-identity dataset as handed to registry construction: a list of
//! operators, each with a name and a list of log entries. A field an input
//! document omitted is `None`, so that registry construction can report the
//! offending field.

use vstd::prelude::*;

verus! {

/// One log entry of the dataset, fields as the document supplied them.
pub struct LogEntrySource {
    pub description: Option<String>,
    pub url: Option<String>,
    /// Base64 of the 32-byte log id.
    pub log_id: Option<String>,
    /// Base64 of the DER SubjectPublicKeyInfo.
    pub key: Option<String>,
    /// Maximum merge delay, in seconds.
    pub mmd: Option<u64>,
}

/// Mathematical image of a `LogEntrySource`.
pub struct LogEntryView {
    pub description: Option<Seq<char>>,
    pub url: Option<Seq<char>>,
    pub log_id: Option<Seq<char>>,
    pub key: Option<Seq<char>>,
    pub mmd: Option<u64>,
}

impl View for LogEntrySource {
    type V = LogEntryView;

    open spec fn view(&self) -> LogEntryView {
        LogEntryView {
            description: match self.description {
                Some(s) => Some(s@),
                None => None,
            },
            url: match self.url {
                Some(s) => Some(s@),
                None => None,
            },
            log_id: match self.log_id {
                Some(s) => Some(s@),
                None => None,
            },
            key: match self.key {
                Some(s) => Some(s@),
                None => None,
            },
            mmd: self.mmd,
        }
    }
}

/// One operator of the dataset with its logs.
pub struct OperatorSource {
    pub name: Option<String>,
    pub logs: Vec<LogEntrySource>,
}

/// Mathematical image of an `OperatorSource`.
pub struct OperatorView {
    pub name: Option<Seq<char>>,
    pub logs: Seq<LogEntryView>,
}

impl View for OperatorSource {
    type V = OperatorView;

    open spec fn view(&self) -> OperatorView {
        OperatorView {
            name: match self.name {
                Some(s) => Some(s@),
                None => None,
            },
            logs: self.logs@.map_values(|l: LogEntrySource| l@),
        }
    }
}

/// The whole dataset.
pub struct LogDataset {
    pub operators: Vec<OperatorSource>,
}

/// Mathematical image of a `LogDataset`.
pub struct LogDatasetView {
    pub operators: Seq<OperatorView>,
}

impl View for LogDataset {
    type V = LogDatasetView;

    open spec fn view(&self) -> LogDatasetView {
        LogDatasetView { operators: self.operators@.map_values(|o: OperatorSource| o@) }
    }
}

} // verus!
