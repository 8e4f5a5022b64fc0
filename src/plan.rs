//! Which source files are copied, and under which names: one pass over the
//! entries, skipping those that do not qualify and those whose destination
//! name is already taken.
use vstd::prelude::*;

use crate::naming::{
    ends_with_jpg, file_name_for_contents, lemma_file_name_ends_with_jpg, md5_hex_of,
    target_file_name,
};
use crate::resolution::{collectable, jpeg_dimensions_of, should_collect};

verus! {

/// An entry of the source directory, as read by the caller.
#[derive(Debug, Clone)]
pub struct Asset {
    /// Whether the entry is a regular file (not a directory, link or other).
    pub is_file: bool,
    /// The file's bytes; empty where the entry is not a regular file.
    pub contents: Vec<u8>,
}

/// One copy to perform: the entry at index `source` goes to the file
/// `target` of the destination directory.
#[derive(Debug, Clone)]
pub struct CopyOp {
    pub source: usize,
    pub target: String,
}

impl View for CopyOp {
    type V = (int, Seq<char>);

    open spec fn view(&self) -> (int, Seq<char>) {
        (self.source as int, self.target@)
    }
}

/// The copies of a list of operations, as `(source index, target name)`.
pub open spec fn ops_view(ops: Seq<CopyOp>) -> Seq<(int, Seq<char>)> {
    ops.map_values(|op: CopyOp| op@)
}

/// The target names of a plan, in order.
pub open spec fn copy_targets(plan: Seq<(int, Seq<char>)>) -> Seq<Seq<char>> {
    plan.map_values(|copy: (int, Seq<char>)| copy.1)
}

/// The plan for entries given by their destination names (`None` for an
/// entry that is not collected), with the names in `existing` already
/// present in the destination. Entries are taken in order; an entry is
/// copied when its name is neither present nor the target of an earlier copy.
pub open spec fn plan_for_targets(
    targets: Seq<Option<Seq<char>>>,
    existing: Seq<Seq<char>>,
) -> Seq<(int, Seq<char>)>
    decreases targets.len(),
{
    if targets.len() == 0 {
        seq![]
    } else {
        let before = plan_for_targets(targets.drop_last(), existing);
        match targets.last() {
            Some(t) => if existing.contains(t) || copy_targets(before).contains(t) {
                before
            } else {
                before.push((targets.len() - 1, t))
            },
            None => before,
        }
    }
}

fn contains_name(names: &Vec<String>, name: &String) -> (r: bool)
    ensures
        r == names.deep_view().contains(name@),
{
    let mut i: usize = 0;
    while i < names.len()
        invariant
            i <= names@.len(),
            forall|k: int| 0 <= k < i ==> names.deep_view()[k] != name@,
        decreases names@.len() - i,
    {
        if names[i] == *name {
            assert(names.deep_view()[i as int] == name@);
            return true;
        }
        i += 1;
    }
    false
}

fn copies_contain_target(ops: &Vec<CopyOp>, name: &String) -> (r: bool)
    ensures
        r == copy_targets(ops_view(ops@)).contains(name@),
{
    let mut i: usize = 0;
    while i < ops.len()
        invariant
            i <= ops@.len(),
            forall|k: int| 0 <= k < i ==> copy_targets(ops_view(ops@))[k] != name@,
        decreases ops@.len() - i,
    {
        if ops[i].target == *name {
            assert(copy_targets(ops_view(ops@))[i as int] == name@);
            return true;
        }
        i += 1;
    }
    false
}

/// Plans the copies for entries given by their destination names (`None`
/// for an entry that is not collected), where `existing` holds the names
/// already present in the destination directory.
pub fn plan_copies(targets: &Vec<Option<String>>, existing: &Vec<String>) -> (r: Vec<CopyOp>)
    ensures
        ops_view(r@) == plan_for_targets(targets.deep_view(), existing.deep_view()),
{
    let mut ops: Vec<CopyOp> = Vec::new();
    let mut i: usize = 0;
    while i < targets.len()
        invariant
            i <= targets@.len(),
            ops_view(ops@) == plan_for_targets(
                targets.deep_view().take(i as int),
                existing.deep_view(),
            ),
        decreases targets@.len() - i,
    {
        let ghost before = targets.deep_view().take(i as int);
        let ghost upto = targets.deep_view().take(i as int + 1);
        assert(upto.drop_last() =~= before);
        match &targets[i] {
            Some(t) => {
                if !contains_name(existing, t) && !copies_contain_target(&ops, t) {
                    ops.push(CopyOp { source: i, target: t.clone() });
                    assert(ops_view(ops@) =~= plan_for_targets(before, existing.deep_view()).push(
                        (i as int, t@),
                    ));
                }
            },
            None => {},
        }
        i += 1;
    }
    assert(targets.deep_view().take(targets@.len() as int) =~= targets.deep_view());
    ops
}

/// The destination name of an entry, or `None` where it is not collected.
pub open spec fn target_of(asset: Asset) -> Option<Seq<char>> {
    if collectable(asset.is_file, jpeg_dimensions_of(asset.contents@)) {
        Some(file_name_for_contents(asset.contents@))
    } else {
        None
    }
}

/// The destination names of the entries, in order.
pub open spec fn targets_of(assets: Seq<Asset>) -> Seq<Option<Seq<char>>> {
    assets.map_values(|a: Asset| target_of(a))
}

/// The copies one run performs on the given entries, with the names in
/// `existing` already present in the destination directory.
pub open spec fn collection_plan(assets: Seq<Asset>, existing: Seq<Seq<char>>) -> Seq<
    (int, Seq<char>),
> {
    plan_for_targets(targets_of(assets), existing)
}

/// The destination name of an entry: `Some` of its digest name where it is
/// a regular file holding a qualifying JPEG image, else `None`.
pub fn target_for(asset: &Asset) -> (r: Option<String>)
    ensures
        r.deep_view() == target_of(*asset),
{
    if should_collect(asset.is_file, asset.contents.as_slice()) {
        Some(target_file_name(asset.contents.as_slice()))
    } else {
        None
    }
}

/// Plans one run of the collector over the entries of the source directory,
/// where `existing` holds the names already present in the destination
/// directory. Entries that are not regular files, do not decode as JPEG
/// images or do not qualify are skipped; none of them fails the run.
pub fn plan_collection(assets: &Vec<Asset>, existing: &Vec<String>) -> (r: Vec<CopyOp>)
    ensures
        ops_view(r@) == collection_plan(assets@, existing.deep_view()),
{
    let mut targets: Vec<Option<String>> = Vec::new();
    let mut i: usize = 0;
    while i < assets.len()
        invariant
            i <= assets@.len(),
            targets@.len() == i,
            targets.deep_view() =~= targets_of(assets@.take(i as int)),
        decreases assets@.len() - i,
    {
        let t = target_for(&assets[i]);
        let ghost before = targets.deep_view();
        let ghost old_targets = targets@;
        targets.push(t);
        assert forall|k: int| 0 <= k < i implies targets.deep_view()[k] == target_of(
            assets@[k],
        ) by {
            assert(targets@[k] == old_targets[k]);
            assert(before[k] == targets_of(assets@.take(i as int))[k]);
        }
        assert(targets.deep_view()[i as int] == target_of(assets@[i as int]));
        assert(targets.deep_view() =~= targets_of(assets@.take(i as int + 1)));
        i += 1;
    }
    assert(assets@.take(assets@.len() as int) =~= assets@);
    plan_copies(&targets, existing)
}

proof fn lemma_copy_targets_push(plan: Seq<(int, Seq<char>)>, copy: (int, Seq<char>))
    ensures
        copy_targets(plan.push(copy)) =~= copy_targets(plan).push(copy.1),
{
}

/// Every copy of a plan takes a collected entry to that entry's name, which
/// is not already present; sources come in increasing order, and no two
/// copies share a target.
pub proof fn lemma_plan_copies_are_fresh(targets: Seq<Option<Seq<char>>>, existing: Seq<Seq<char>>)
    ensures
        forall|k: int|
            #![trigger plan_for_targets(targets, existing)[k]]
            0 <= k < plan_for_targets(targets, existing).len() ==> {
                let copy = plan_for_targets(targets, existing)[k];
                &&& 0 <= copy.0 < targets.len()
                &&& targets[copy.0] == Some(copy.1)
                &&& !existing.contains(copy.1)
            },
        forall|k1: int, k2: int|
            0 <= k1 < k2 < plan_for_targets(targets, existing).len() ==> {
                &&& (#[trigger] plan_for_targets(targets, existing)[k1]).0 < (
                #[trigger] plan_for_targets(targets, existing)[k2]).0
                &&& plan_for_targets(targets, existing)[k1].1 != plan_for_targets(
                    targets,
                    existing,
                )[k2].1
            },
    decreases targets.len(),
{
    if targets.len() > 0 {
        let prefix = targets.drop_last();
        let before = plan_for_targets(prefix, existing);
        lemma_plan_copies_are_fresh(prefix, existing);
        if let Some(t) = targets.last() {
            if !(existing.contains(t) || copy_targets(before).contains(t)) {
                assert forall|k: int| 0 <= k < before.len() implies before[k].1 != t by {
                    assert(copy_targets(before)[k] == before[k].1);
                }
            }
        }
    }
}

/// After a run, the name of every collected entry is present: it was there
/// before, or the run copies to it.
pub proof fn lemma_collected_names_present(
    targets: Seq<Option<Seq<char>>>,
    existing: Seq<Seq<char>>,
)
    ensures
        forall|i: int|
            0 <= i < targets.len() && (#[trigger] targets[i]) is Some ==> {
                ||| existing.contains(targets[i]->Some_0)
                ||| copy_targets(plan_for_targets(targets, existing)).contains(
                    targets[i]->Some_0,
                )
            },
    decreases targets.len(),
{
    broadcast use vstd::seq_lib::lemma_seq_contains_after_push;

    if targets.len() > 0 {
        let prefix = targets.drop_last();
        let before = plan_for_targets(prefix, existing);
        lemma_collected_names_present(prefix, existing);
        assert forall|i: int| 0 <= i < targets.len() - 1 implies targets[i] == prefix[i] by {}
        if let Some(t) = targets.last() {
            if !(existing.contains(t) || copy_targets(before).contains(t)) {
                lemma_copy_targets_push(before, (targets.len() - 1, t));
            }
        }
    }
}

/// Entries are decided in order: the plan for the first `m` entries is a
/// prefix of the whole plan, and every later copy comes from an entry at
/// index `m` or beyond.
proof fn lemma_plan_prefix(targets: Seq<Option<Seq<char>>>, existing: Seq<Seq<char>>, m: int)
    requires
        0 <= m <= targets.len(),
    ensures
        plan_for_targets(targets.take(m), existing).len() <= plan_for_targets(
            targets,
            existing,
        ).len(),
        plan_for_targets(targets, existing).take(
            plan_for_targets(targets.take(m), existing).len() as int,
        ) == plan_for_targets(targets.take(m), existing),
        forall|k: int|
            plan_for_targets(targets.take(m), existing).len() <= k < plan_for_targets(
                targets,
                existing,
            ).len() ==> (#[trigger] plan_for_targets(targets, existing)[k]).0 >= m,
    decreases targets.len(),
{
    let whole = plan_for_targets(targets, existing);
    if m == targets.len() {
        assert(targets.take(m) =~= targets);
        assert(whole.take(whole.len() as int) =~= whole);
    } else {
        let prefix = targets.drop_last();
        assert(prefix.take(m) =~= targets.take(m));
        lemma_plan_prefix(prefix, existing, m);
        let part = plan_for_targets(targets.take(m), existing);
        let before = plan_for_targets(prefix, existing);
        if whole != before {
            assert(whole.take(part.len() as int) =~= before.take(part.len() as int));
        }
    }
}

/// Two regular files with the same bytes get the same destination name, and
/// only the first of them is copied: the second is skipped.
pub proof fn lemma_identical_files_copied_once(
    assets: Seq<Asset>,
    existing: Seq<Seq<char>>,
    i: int,
    j: int,
)
    requires
        0 <= i < j < assets.len(),
        assets[i].is_file,
        assets[j].is_file,
        assets[i].contents@ == assets[j].contents@,
    ensures
        target_of(assets[i]) == target_of(assets[j]),
        forall|k: int|
            0 <= k < collection_plan(assets, existing).len() ==> (#[trigger] collection_plan(
                assets,
                existing,
            )[k]).0 != j,
        forall|k1: int, k2: int|
            0 <= k1 < collection_plan(assets, existing).len() && 0 <= k2 < collection_plan(
                assets,
                existing,
            ).len() && (#[trigger] collection_plan(assets, existing)[k1]).1 == (
            #[trigger] collection_plan(assets, existing)[k2]).1 ==> k1 == k2,
{
    let targets = targets_of(assets);
    let whole = plan_for_targets(targets, existing);
    lemma_plan_copies_are_fresh(targets, existing);
    let upto_j = targets.take(j);
    let upto_next = targets.take(j + 1);
    let before = plan_for_targets(upto_j, existing);
    assert(upto_next.drop_last() =~= upto_j);
    assert(upto_j[i] == targets[i]);
    lemma_collected_names_present(upto_j, existing);
    assert(plan_for_targets(upto_next, existing) == before);
    lemma_plan_prefix(targets, existing, j + 1);
    lemma_plan_copies_are_fresh(upto_j, existing);
    assert forall|k: int| 0 <= k < whole.len() implies (#[trigger] whole[k]).0 != j by {
        if k < before.len() {
            assert(whole[k] == whole.take(before.len() as int)[k]);
        }
    }
}

/// A file that does not decode as a JPEG image is never copied; the run
/// goes on with the other entries.
pub proof fn lemma_undecodable_never_copied(assets: Seq<Asset>, existing: Seq<Seq<char>>, i: int)
    requires
        0 <= i < assets.len(),
        jpeg_dimensions_of(assets[i].contents@) is None,
    ensures
        forall|k: int|
            0 <= k < collection_plan(assets, existing).len() ==> (#[trigger] collection_plan(
                assets,
                existing,
            )[k]).0 != i,
{
    lemma_plan_copies_are_fresh(targets_of(assets), existing);
}

/// Running twice on unchanged entries: once the first run's copies are
/// present, the second run copies nothing.
pub proof fn lemma_second_run_copies_nothing(assets: Seq<Asset>, existing: Seq<Seq<char>>)
    ensures
        collection_plan(
            assets,
            existing + copy_targets(collection_plan(assets, existing)),
        ).len() == 0,
{
    broadcast use vstd::seq_lib::lemma_seq_concat_contains_all_elements;

    let targets = targets_of(assets);
    let present = existing + copy_targets(collection_plan(assets, existing));
    lemma_collected_names_present(targets, existing);
    lemma_nothing_left_to_copy(targets, present);
}

proof fn lemma_nothing_left_to_copy(targets: Seq<Option<Seq<char>>>, present: Seq<Seq<char>>)
    requires
        forall|i: int|
            0 <= i < targets.len() && (#[trigger] targets[i]) is Some ==> present.contains(
                targets[i]->Some_0,
            ),
    ensures
        plan_for_targets(targets, present).len() == 0,
    decreases targets.len(),
{
    if targets.len() > 0 {
        let prefix = targets.drop_last();
        assert forall|i: int| 0 <= i < prefix.len() && (#[trigger] prefix[i]) is Some implies present.contains(
            prefix[i]->Some_0,
        ) by {
            assert(prefix[i] == targets[i]);
        }
        lemma_nothing_left_to_copy(prefix, present);
    }
}

/// Every destination name of a plan ends in `.jpg`, whatever the source
/// file's own name or extension.
pub proof fn lemma_targets_end_with_jpg(assets: Seq<Asset>, existing: Seq<Seq<char>>)
    ensures
        forall|k: int|
            0 <= k < collection_plan(assets, existing).len() ==> ends_with_jpg(
                (#[trigger] collection_plan(assets, existing)[k]).1,
            ),
{
    let targets = targets_of(assets);
    lemma_plan_copies_are_fresh(targets, existing);
    assert forall|k: int|
        0 <= k < collection_plan(assets, existing).len() implies ends_with_jpg(
        (#[trigger] collection_plan(assets, existing)[k]).1,
    ) by {
        let copy = collection_plan(assets, existing)[k];
        let asset = assets[copy.0];
        assert(targets[copy.0] == target_of(asset));
        lemma_file_name_ends_with_jpg(md5_hex_of(asset.contents@));
    }
}

} // verus!
