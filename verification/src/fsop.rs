use vstd::prelude::*;

verus! {

/// The model of the working directory that the run mutates: a finite map
/// from a path (as bytes) to the byte content of the file at that path.
pub type FsModel = Map<Seq<u8>, Seq<u8>>;

/// One filesystem step of a run. The surrounding program executes these
/// literally; the library plans them and proves what the plans do to the
/// model filesystem.
pub enum FsOp {
    /// Move the file at `from` to `to` (the source ceases to exist).
    Rename { from: Vec<u8>, to: Vec<u8> },
    /// Copy the content of the file at `from` to `to` (the source remains).
    CopyFile { from: Vec<u8>, to: Vec<u8> },
    /// Create or overwrite the file at `path` with `content`.
    Write { path: Vec<u8>, content: Vec<u8> },
    /// Delete the file at `path`, if it exists.
    Remove { path: Vec<u8> },
}

/// The effect of one operation on the model filesystem. A rename or copy
/// whose source does not exist leaves the model unchanged (on the real
/// filesystem it fails and the run aborts; the plans proved below only
/// rename or copy sources shown to exist).
pub open spec fn op_apply(fs: FsModel, op: FsOp) -> FsModel {
    match op {
        FsOp::Rename { from, to } => if fs.contains_key(from@) {
            fs.remove(from@).insert(to@, fs[from@])
        } else {
            fs
        },
        FsOp::CopyFile { from, to } => if fs.contains_key(from@) {
            fs.insert(to@, fs[from@])
        } else {
            fs
        },
        FsOp::Write { path, content } => fs.insert(path@, content@),
        FsOp::Remove { path } => fs.remove(path@),
    }
}

/// The effect of a sequence of operations, applied in order.
pub open spec fn ops_apply(fs: FsModel, ops: Seq<FsOp>) -> FsModel
    decreases ops.len(),
{
    if ops.len() == 0 {
        fs
    } else {
        ops_apply(op_apply(fs, ops[0]), ops.skip(1))
    }
}

pub open spec fn op_is_rename(op: FsOp, from: Seq<u8>, to: Seq<u8>) -> bool {
    match op {
        FsOp::Rename { from: f, to: t } => f@ == from && t@ == to,
        _ => false,
    }
}

pub open spec fn op_is_copy(op: FsOp, from: Seq<u8>, to: Seq<u8>) -> bool {
    match op {
        FsOp::CopyFile { from: f, to: t } => f@ == from && t@ == to,
        _ => false,
    }
}

pub open spec fn op_is_write(op: FsOp, path: Seq<u8>, content: Seq<u8>) -> bool {
    match op {
        FsOp::Write { path: p, content: c } => p@ == path && c@ == content,
        _ => false,
    }
}

pub open spec fn op_is_remove(op: FsOp, path: Seq<u8>) -> bool {
    match op {
        FsOp::Remove { path: p } => p@ == path,
        _ => false,
    }
}

} // verus!
