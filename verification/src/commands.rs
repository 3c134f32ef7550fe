//! What the application's commands decide and report: scan reports and
//! progress, batch listings, and whether an index move may go ahead.
use vstd::prelude::*;
use crate::engine::batch::{remove, without_id, BatchInfo};
use crate::engine::paths::{path_prefix, path_starts_with, same_dir, same_path, Platform};
use crate::text::{chars_of, push_str, string_of, trim_range, trim_ws};

verus! {

/// The result of a scan: files indexed and the warnings collected on the
/// way.
pub struct ScanReport {
    pub indexed: i64,
    pub warnings: Vec<String>,
}

/// A coarse index status: document count and the directory the index
/// lives in.
pub struct IndexStatus {
    pub documents: u64,
    pub index_dir: String,
}

/// A batch with the number of documents it has in the index.
pub struct BatchItem {
    pub id: String,
    pub name: String,
    pub path: String,
    pub created_at: u64,
    pub documents: usize,
}

/// The outcome of a successful index move.
pub struct IndexMoveReport {
    pub index_dir: String,
    pub documents: u64,
}

/// A batch listed with its document count.
pub fn batch_item(b: BatchInfo, documents: usize) -> (item: BatchItem)
    ensures
        item.id == b.id,
        item.name == b.name,
        item.path == b.path,
        item.created_at == b.created_at,
        item.documents == documents,
{
    BatchItem { id: b.id, name: b.name, path: b.path, created_at: b.created_at, documents }
}

/// Settle the batch list after a scan into batch `batch_id`: a failed scan
/// drops the batch it had added, a successful one leaves the list as it is.
/// The scan's result is handed back unchanged.
pub fn settle_scan(
    result: Result<ScanReport, String>,
    batches: &mut Vec<BatchInfo>,
    batch_id: &str,
) -> (r: Result<ScanReport, String>)
    ensures
        r == result,
        result is Ok ==> final(batches)@ == old(batches)@,
        result is Err ==> final(batches)@ == without_id(old(batches)@, batch_id@),
{
    if result.is_err() {
        remove(batches, batch_id);
    }
    result
}

/// Files between two progress events of a scan.
pub const PROGRESS_EVERY: usize = 200;

/// Whether a scan reports progress after `indexed` of `total` files: every
/// 200 files and at the last one.
pub fn progress_due(indexed: usize, total: usize) -> (b: bool)
    ensures
        b == (indexed % 200 == 0 || indexed == total),
{
    indexed % PROGRESS_EVERY == 0 || indexed == total
}

/// The warning for a file the index refused: `<path>：索引失败（<error>）`.
pub fn index_failure_warning(path: &str, err: &str) -> (w: String)
    ensures
        w@ == path@ + "：索引失败（"@ + err@ + "）"@,
{
    let mut w = path.to_owned();
    push_str(&mut w, "：索引失败（");
    push_str(&mut w, err);
    push_str(&mut w, "）");
    w
}

/// Why an index move is refused.
#[derive(PartialEq, Eq, Structural, Clone, Copy, Debug)]
pub enum MoveRefusal {
    /// The chosen directory is blank.
    NoTarget,
    /// The chosen directory is the current index directory.
    SameDirectory,
    /// One of the two directories lies inside the other.
    Nested,
    /// The chosen directory already holds an index.
    TargetHasIndex,
}

/// The decision on moving the index from `old_dir` to the chosen `dir`:
/// the trimmed target, unless it is blank, the same directory (canonical
/// forms compared where known), nested with the old one either way, or
/// already holds an index. Paths are compared as `platform` does.
pub open spec fn move_decision(
    dir: Seq<char>,
    old_dir: Seq<char>,
    old_canonical: Option<Seq<char>>,
    target_canonical: Option<Seq<char>>,
    target_has_index: bool,
    platform: Platform,
) -> Result<Seq<char>, MoveRefusal> {
    let target = trim_ws(dir);
    let a = match old_canonical {
        Some(c) => c,
        None => old_dir,
    };
    let b = match target_canonical {
        Some(c) => c,
        None => target,
    };
    if target.len() == 0 {
        Err(MoveRefusal::NoTarget)
    } else if same_path(a, b, platform) {
        Err(MoveRefusal::SameDirectory)
    } else if path_prefix(target, old_dir, platform) || path_prefix(old_dir, target, platform) {
        Err(MoveRefusal::Nested)
    } else if target_has_index {
        Err(MoveRefusal::TargetHasIndex)
    } else {
        Ok(target)
    }
}

/// The directory a move goes to: the chosen one, trimmed.
pub fn move_target(dir: &str) -> (t: String)
    ensures
        t@ == trim_ws(dir@),
{
    let v = chars_of(dir);
    let t = trim_range(&v, 0, v.len());
    proof {
        assert(v@.subrange(0, v@.len() as int) =~= v@);
    }
    string_of(t.as_slice())
}

/// The optional string's characters.
pub open spec fn chars_opt(o: Option<String>) -> Option<Seq<char>> {
    match o {
        Some(s) => Some(s@),
        None => None,
    }
}

/// Decide whether the index may move from `old_dir` to `dir`; on success,
/// the directory to move to.
pub fn check_index_move(
    dir: &str,
    old_dir: &str,
    old_canonical: Option<String>,
    target_canonical: Option<String>,
    target_has_index: bool,
    platform: Platform,
) -> (r: Result<String, MoveRefusal>)
    ensures
        match r {
            Ok(t) => move_decision(
                dir@,
                old_dir@,
                chars_opt(old_canonical),
                chars_opt(target_canonical),
                target_has_index,
                platform,
            ) == Ok::<Seq<char>, MoveRefusal>(t@),
            Err(e) => move_decision(
                dir@,
                old_dir@,
                chars_opt(old_canonical),
                chars_opt(target_canonical),
                target_has_index,
                platform,
            ) == Err::<Seq<char>, MoveRefusal>(e),
        },
        r matches Ok(t) ==> !path_prefix(t@, old_dir@, platform) && !path_prefix(old_dir@, t@, platform),
{
    let target = move_target(dir);
    if target.as_str().as_bytes().len() == 0 {
        proof {
            vstd::utf8::encode_utf8_decode_utf8(target@);
        }
        return Err(MoveRefusal::NoTarget);
    }
    proof {
        if target@.len() == 0 {
            assert(vstd::utf8::encode_utf8(target@) =~= Seq::<u8>::empty());
        }
    }
    if same_dir(old_canonical, old_dir, target_canonical, target.as_str(), platform) {
        return Err(MoveRefusal::SameDirectory);
    }
    if path_starts_with(target.as_str(), old_dir, platform) || path_starts_with(
        old_dir,
        target.as_str(),
        platform,
    ) {
        return Err(MoveRefusal::Nested);
    }
    if target_has_index {
        return Err(MoveRefusal::TargetHasIndex);
    }
    Ok(target)
}

/// The message shown for a refused move to `target`.
pub fn refusal_message(r: MoveRefusal, target: &str) -> (m: String)
    ensures
        m@ == match r {
            MoveRefusal::NoTarget => "请选择有效的目录"@,
            MoveRefusal::SameDirectory => "新位置与当前索引目录相同"@,
            MoveRefusal::Nested => "新位置不能位于当前索引目录内部，也不能是它的父目录"@,
            MoveRefusal::TargetHasIndex => "目标目录已包含索引数据："@ + target@,
        },
{
    match r {
        MoveRefusal::NoTarget => "请选择有效的目录".to_owned(),
        MoveRefusal::SameDirectory => "新位置与当前索引目录相同".to_owned(),
        MoveRefusal::Nested => "新位置不能位于当前索引目录内部，也不能是它的父目录".to_owned(),
        MoveRefusal::TargetHasIndex => {
            let mut m = "目标目录已包含索引数据：".to_owned();
            push_str(&mut m, target);
            m
        },
    }
}

} // verus!
