//! What the library asks of its host, and what the host answers.
//!
//! The library never touches a file. It hands its host a `Request`: file
//! operations to carry out in the log directory, in order, and then one thing to
//! find out. The host's `Reply` is fed back into the library, which answers with
//! the next request, until there is nothing left to find out.
//!
//! Every name is that of an entry of the log directory, without a path.

use vstd::prelude::*;

verus! {

/// One change to the log directory.
#[derive(Debug, PartialEq, Eq)]
pub enum FileOp {
    /// Give `from` the name `to`.
    Rename { from: String, to: String },
    /// Empty the file, keeping its name.
    Truncate { name: String },
    /// Copy `from` to `to`, then empty `from`, unless the copy failed.
    CopyTruncate { from: String, to: String },
    /// Delete the file.
    Remove { name: String },
}

/// A `FileOp` as contracts see it.
pub enum FileOpModel {
    Rename { from: Seq<char>, to: Seq<char> },
    Truncate { name: Seq<char> },
    CopyTruncate { from: Seq<char>, to: Seq<char> },
    Remove { name: Seq<char> },
}

impl DeepView for FileOp {
    type V = FileOpModel;

    open spec fn deep_view(&self) -> FileOpModel {
        match self {
            FileOp::Rename { from, to } => FileOpModel::Rename { from: from@, to: to@ },
            FileOp::Truncate { name } => FileOpModel::Truncate { name: name@ },
            FileOp::CopyTruncate { from, to } => FileOpModel::CopyTruncate { from: from@, to: to@ },
            FileOp::Remove { name } => FileOpModel::Remove { name: name@ },
        }
    }
}

/// What the host is to find out once the operations are done.
#[derive(Debug, PartialEq, Eq)]
pub enum Query {
    /// Whether the active log file is there, and what its tail holds.
    ProbeLog,
    /// The names of the entries of the log directory.
    ListDir,
    /// Whether the directory has an entry of this name.
    Exists { name: String },
    /// Nothing: the work is done.
    Nothing,
}

/// A `Query` as contracts see it.
pub enum QueryModel {
    ProbeLog,
    ListDir,
    Exists { name: Seq<char> },
    Nothing,
}

impl DeepView for Query {
    type V = QueryModel;

    open spec fn deep_view(&self) -> QueryModel {
        match self {
            Query::ProbeLog => QueryModel::ProbeLog,
            Query::ListDir => QueryModel::ListDir,
            Query::Exists { name } => QueryModel::Exists { name: name@ },
            Query::Nothing => QueryModel::Nothing,
        }
    }
}

/// What the host is to do next: the operations in order, each failure reported
/// and passed over, then the query.
#[derive(Debug, PartialEq, Eq)]
pub struct Request {
    pub ops: Vec<FileOp>,
    pub query: Query,
}

/// A `Request` as contracts see it.
pub struct RequestModel {
    pub ops: Seq<FileOpModel>,
    pub query: QueryModel,
}

impl DeepView for Request {
    type V = RequestModel;

    open spec fn deep_view(&self) -> RequestModel {
        RequestModel { ops: self.ops.deep_view(), query: self.query.deep_view() }
    }
}

/// What the host found of the active log file.
#[derive(Debug, PartialEq, Eq)]
pub enum LogProbe {
    /// There is no such file.
    Missing,
    /// The file is there, but it could not be read.
    Unreadable,
    /// The file is there; `tail` is what it holds from byte `start` to its
    /// end.
    Read { start: u64, tail: Vec<u8> },
}

/// A `LogProbe` as contracts see it.
pub enum LogProbeModel {
    Missing,
    Unreadable,
    Read { start: u64, tail: Seq<u8> },
}

impl DeepView for LogProbe {
    type V = LogProbeModel;

    open spec fn deep_view(&self) -> LogProbeModel {
        match self {
            LogProbe::Missing => LogProbeModel::Missing,
            LogProbe::Unreadable => LogProbeModel::Unreadable,
            LogProbe::Read { start, tail } => LogProbeModel::Read { start: *start, tail: tail@ },
        }
    }
}

/// The host's answer to a query.
#[derive(Debug, PartialEq, Eq)]
pub enum Reply {
    /// To `ProbeLog`.
    Log(LogProbe),
    /// To `ListDir`. A directory that cannot be read is answered for with no
    /// names.
    Names(Vec<String>),
    /// To `Exists`.
    Exists(bool),
}

/// A `Reply` as contracts see it.
pub enum ReplyModel {
    Log(LogProbeModel),
    Names(Seq<Seq<char>>),
    Exists(bool),
}

impl DeepView for Reply {
    type V = ReplyModel;

    open spec fn deep_view(&self) -> ReplyModel {
        match self {
            Reply::Log(probe) => ReplyModel::Log(probe.deep_view()),
            Reply::Names(names) => ReplyModel::Names(names.deep_view()),
            Reply::Exists(found) => ReplyModel::Exists(*found),
        }
    }
}

/// What an operation makes of a directory, where it does not fail: `dir` maps
/// each name to what the file holds. An operation on a file that is not there
/// changes nothing; a rename onto a name that is taken replaces that file.
pub open spec fn perform(dir: Map<Seq<char>, Seq<char>>, op: FileOpModel) -> Map<
    Seq<char>,
    Seq<char>,
> {
    match op {
        FileOpModel::Rename { from, to } => if dir.dom().contains(from) {
            dir.remove(from).insert(to, dir[from])
        } else {
            dir
        },
        FileOpModel::Truncate { name } => if dir.dom().contains(name) {
            dir.insert(name, Seq::empty())
        } else {
            dir
        },
        FileOpModel::CopyTruncate { from, to } => if dir.dom().contains(from) {
            dir.insert(to, dir[from]).insert(from, Seq::empty())
        } else {
            dir
        },
        FileOpModel::Remove { name } => dir.remove(name),
    }
}

/// What the operations, one after the other, make of a directory.
pub open spec fn perform_all(dir: Map<Seq<char>, Seq<char>>, ops: Seq<FileOpModel>) -> Map<
    Seq<char>,
    Seq<char>,
>
    decreases ops.len(),
{
    if ops.len() == 0 {
        dir
    } else {
        perform(perform_all(dir, ops.drop_last()), ops.last())
    }
}

/// Whether `names` are the names in `dir`, each once.
pub open spec fn is_listing(names: Seq<Seq<char>>, dir: Map<Seq<char>, Seq<char>>) -> bool {
    names.no_duplicates() && forall|name: Seq<char>|
        names.contains(name) <==> dir.dom().contains(name)
}

} // verus!
