//! What holds of the queue whatever is done to it.
use vstd::prelude::*;

use crate::app::batch;
use crate::app::history;
use crate::app::queue;
use crate::app::update;
use crate::app::Clock;
use crate::app::Event;
use crate::app::FileStatus;
use crate::app::FileView;
use crate::app::ModelView;
use crate::converters;
use crate::converters::laws;
use crate::converters::names;
use crate::paths;
use crate::text;

verus! {

// ---------------------------------------------------------------------------
// The queue invariant
// ---------------------------------------------------------------------------

/// Whether two queue entries may stand beside each other: neither their ids
/// nor their paths are the same.
pub open spec fn apart(f: FileView, g: FileView) -> bool {
    f.id != g.id && paths::components(f.path) != paths::components(g.path)
}

/// A queue is well formed: every id was given out and none twice, no path is
/// queued twice, and every file offers the targets of its extension, among
/// them the one picked.
pub open spec fn well_formed(m: ModelView) -> bool {
    &&& forall|i: int, j: int|
        0 <= i < j < m.files.len() ==> apart(#[trigger] m.files[i], #[trigger] m.files[j])
    &&& forall|i: int|
        0 <= i < m.files.len() ==> {
            let f = #[trigger] m.files[i];
            &&& f.id < m.next_id
            &&& f.targets == converters::targets(f.source_ext)
            &&& f.target_idx matches Some(k) ==> k < f.targets.len()
        }
    &&& !m.is_converting ==> forall|i: int|
        0 <= i < m.files.len() ==> (#[trigger] m.files[i]).status != FileStatus::Converting
}

/// Whether `g` may replace `f`: the same file, with a valid target.
pub open spec fn same_file(f: FileView, g: FileView) -> bool {
    &&& f.id == g.id
    &&& f.path == g.path
    &&& f.source_ext == g.source_ext
    &&& f.targets == g.targets
    &&& (f.target_idx matches Some(k) ==> k < f.targets.len()) ==> (g.target_idx matches Some(k)
        ==> k < g.targets.len())
}

/// A queue whose files are replaced by the same files stays well formed.
proof fn lemma_same_files(m: ModelView, n: ModelView)
    requires
        well_formed(m),
        n.next_id >= m.next_id,
        n.files.len() == m.files.len(),
        forall|i: int| 0 <= i < m.files.len() ==> same_file(m.files[i], #[trigger] n.files[i]),
        !n.is_converting ==> forall|i: int|
            0 <= i < n.files.len() ==> (#[trigger] n.files[i]).status != FileStatus::Converting,
    ensures
        well_formed(n),
{
    assert forall|i: int, j: int| 0 <= i < j < n.files.len() implies apart(
        #[trigger] n.files[i],
        #[trigger] n.files[j],
    ) by {
        assert(apart(m.files[i], m.files[j]));
    }
    assert forall|i: int| 0 <= i < n.files.len() implies {
        let f = #[trigger] n.files[i];
        &&& f.id < n.next_id
        &&& f.targets == converters::targets(f.source_ext)
        &&& f.target_idx matches Some(k) ==> k < f.targets.len()
    } by {
        assert(same_file(m.files[i], n.files[i]));
        assert(m.files[i].id < m.next_id);
    }
}

/// Whether a file stands at a place of a queue.
pub open spec fn stands(files: Seq<FileView>, k: int, f: FileView) -> bool {
    0 <= k < files.len() && files[k] == f
}

/// What is kept of a queue was in it, and all that is to stay is kept.
pub proof fn lemma_kept(rule: update::Keep, files: Seq<FileView>)
    ensures
        update::kept(rule, files).len() <= files.len(),
        forall|i: int|
            0 <= i < update::kept(rule, files).len() ==> update::stays(
                rule,
                #[trigger] update::kept(rule, files)[i],
            ) && exists|k: int| i <= k && #[trigger] stands(files, k, update::kept(rule, files)[i]),
        forall|k: int|
            0 <= k < files.len() && update::stays(rule, #[trigger] files[k]) ==> update::kept(
                rule,
                files,
            ).contains(files[k]),
{
    let now = update::kept(rule, files);
    lemma_kept_len(rule, files);
    assert forall|i: int| 0 <= i < now.len() implies update::stays(rule, #[trigger] now[i])
        && exists|k: int| i <= k && #[trigger] stands(files, k, now[i]) by {
        let k = lemma_kept_from(rule, files, i);
        assert(stands(files, k, now[i]));
    }
    assert forall|k: int|
        0 <= k < files.len() && update::stays(rule, #[trigger] files[k]) implies now.contains(
        files[k],
    ) by {
        let i = lemma_kept_all(rule, files, k);
        assert(now[i] == files[k]);
    }
}

proof fn lemma_kept_len(rule: update::Keep, files: Seq<FileView>)
    ensures
        update::kept(rule, files).len() <= files.len(),
    decreases files.len(),
{
    if files.len() > 0 {
        lemma_kept_len(rule, files.drop_last());
    }
}

/// Where a kept file stood.
pub proof fn lemma_kept_from(rule: update::Keep, files: Seq<FileView>, i: int) -> (k: int)
    requires
        0 <= i < update::kept(rule, files).len(),
    ensures
        i <= k < files.len(),
        files[k] == update::kept(rule, files)[i],
        update::stays(rule, files[k]),
    decreases files.len(),
{
    let before = update::kept(rule, files.drop_last());
    lemma_kept_len(rule, files.drop_last());
    if i < before.len() {
        lemma_kept_from(rule, files.drop_last(), i)
    } else {
        files.len() - 1
    }
}

/// Where two kept files stood: in the order that they are kept in.
pub proof fn lemma_kept_order(rule: update::Keep, files: Seq<FileView>, i: int, j: int) -> (r: (
    int,
    int,
))
    requires
        0 <= i < j < update::kept(rule, files).len(),
    ensures
        0 <= r.0 < r.1 < files.len(),
        files[r.0] == update::kept(rule, files)[i],
        files[r.1] == update::kept(rule, files)[j],
    decreases files.len(),
{
    let rest = files.drop_last();
    let before = update::kept(rule, rest);
    if j < before.len() {
        lemma_kept_order(rule, rest, i, j)
    } else {
        (lemma_kept_from(rule, rest, i), files.len() - 1)
    }
}

/// Where a file that stays is found.
pub proof fn lemma_kept_all(rule: update::Keep, files: Seq<FileView>, k: int) -> (i: int)
    requires
        0 <= k < files.len(),
        update::stays(rule, files[k]),
    ensures
        0 <= i < update::kept(rule, files).len(),
        update::kept(rule, files)[i] == files[k],
    decreases files.len(),
{
    let rest = files.drop_last();
    if k < rest.len() {
        lemma_kept_all(rule, rest, k)
    } else {
        update::kept(rule, files).len() - 1
    }
}

/// A queue from which some files were removed stays well formed.
proof fn lemma_kept_well_formed(m: ModelView, rule: update::Keep, n: ModelView)
    requires
        well_formed(m),
        n.files == update::kept(rule, m.files),
        n.next_id == m.next_id,
        n.is_converting == m.is_converting,
    ensures
        well_formed(n),
{
    assert forall|i: int, j: int| 0 <= i < j < n.files.len() implies apart(
        #[trigger] n.files[i],
        #[trigger] n.files[j],
    ) by {
        let (k, l) = lemma_kept_order(rule, m.files, i, j);
        assert(apart(m.files[k], m.files[l]));
    }
    assert forall|i: int| 0 <= i < n.files.len() implies {
        let f = #[trigger] n.files[i];
        &&& f.id < n.next_id
        &&& f.targets == converters::targets(f.source_ext)
        &&& f.target_idx matches Some(k) ==> k < f.targets.len()
        &&& !n.is_converting ==> f.status != FileStatus::Converting
    } by {
        let k = lemma_kept_from(rule, m.files, i);
        assert(m.files[k].id < m.next_id);
    }
}

/// A queue in which two neighbours changed places stays well formed.
proof fn lemma_swap_well_formed(m: ModelView, i: int, n: ModelView)
    requires
        well_formed(m),
        0 <= i < m.files.len() - 1,
        n.files =~= m.files.update(i, m.files[i + 1]).update(i + 1, m.files[i]),
        n.next_id == m.next_id,
        n.is_converting == m.is_converting,
    ensures
        well_formed(n),
{
    assert forall|a: int, b: int| 0 <= a < b < n.files.len() implies apart(
        #[trigger] n.files[a],
        #[trigger] n.files[b],
    ) by {
        let x = if a == i {
            i + 1
        } else if a == i + 1 {
            i
        } else {
            a
        };
        let y = if b == i {
            i + 1
        } else if b == i + 1 {
            i
        } else {
            b
        };
        assert(n.files[a] == m.files[x] && n.files[b] == m.files[y]);
        if x < y {
            assert(apart(m.files[x], m.files[y]));
        } else {
            assert(apart(m.files[y], m.files[x]));
        }
    }
}

/// How many files have a status is 0 exactly when none has it.
pub proof fn lemma_count_none(files: Seq<FileView>, status: FileStatus)
    ensures
        queue::count_status(files, status) == 0 <==> forall|i: int|
            0 <= i < files.len() ==> (#[trigger] files[i]).status != status,
    decreases files.len(),
{
    if files.len() > 0 {
        lemma_count_none(files.drop_last(), status);
        if queue::count_status(files, status) == 0 {
            assert forall|i: int| 0 <= i < files.len() implies (#[trigger] files[i]).status
                != status by {
                if i < files.len() - 1 {
                    assert(files.drop_last()[i] == files[i]);
                }
            }
        }
        if forall|i: int| 0 <= i < files.len() ==> (#[trigger] files[i]).status != status {
            assert forall|i: int| 0 <= i < files.drop_last().len() implies (
            #[trigger] files.drop_last()[i]).status != status by {
                assert(files[i].status != status);
            }
            assert(files[files.len() - 1].status != status);
        }
    }
}

/// Letting a batch target go leaves the queue as it is.
proof fn lemma_settle(m: ModelView)
    ensures
        queue::settle(m).files == m.files,
        queue::settle(m).next_id == m.next_id,
        queue::settle(m).is_converting == m.is_converting,
        queue::settle(m).history == m.history,
        queue::settle(m).global_target_idx matches Some(i) ==> i < queue::offered(m.files).len(),
{
}

/// A queue that starts empty is well formed.
pub proof fn law_start_well_formed(
    config: crate::config::ConfigView,
    default_dir: Seq<char>,
    backend: Seq<char>,
    entries: Seq<crate::app::EntryView>,
)
    ensures
        well_formed(crate::app::start::first_model(config, default_dir, backend, entries)),
{
}

/// Whether every file of `n` was in `m`, under the same id and path.
pub open spec fn from_before(m: ModelView, n: ModelView) -> bool {
    forall|i: int|
        0 <= i < n.files.len() ==> exists|k: int|
            0 <= k < m.files.len() && (#[trigger] m.files[k]).id == (#[trigger] n.files[i]).id
                && m.files[k].path == n.files[i].path
}

/// Whether a step from `m` to `n` respects the queue.
pub open spec fn respects(m: ModelView, n: ModelView) -> bool {
    &&& n.next_id == m.next_id
    &&& from_before(m, n)
    &&& well_formed(m) ==> well_formed(n)
}

/// Replacing files by themselves respects the queue.
proof fn lemma_respects_same(m: ModelView, n: ModelView)
    requires
        n.next_id == m.next_id,
        n.files.len() == m.files.len(),
        forall|i: int| 0 <= i < m.files.len() ==> same_file(m.files[i], #[trigger] n.files[i]),
        well_formed(m) && !n.is_converting ==> forall|i: int|
            0 <= i < n.files.len() ==> (#[trigger] n.files[i]).status != FileStatus::Converting,
    ensures
        respects(m, n),
{
    assert forall|i: int| 0 <= i < n.files.len() implies exists|k: int|
        0 <= k < m.files.len() && (#[trigger] m.files[k]).id == (#[trigger] n.files[i]).id
            && m.files[k].path == n.files[i].path by {
        assert(same_file(m.files[i], n.files[i]));
    }
    if well_formed(m) {
        lemma_same_files(m, n);
    }
}

/// Removing files respects the queue.
proof fn lemma_respects_kept(m: ModelView, rule: update::Keep, n: ModelView)
    requires
        n.files == update::kept(rule, m.files),
        n.next_id == m.next_id,
        n.is_converting == m.is_converting,
    ensures
        respects(m, n),
{
    lemma_kept(rule, m.files);
    if well_formed(m) {
        lemma_kept_well_formed(m, rule, n);
    }
}

/// Two steps that respect the queue do so together.
proof fn lemma_respects_both(a: ModelView, b: ModelView, c: ModelView)
    requires
        respects(a, b),
        respects(b, c),
    ensures
        respects(a, c),
{
    assert forall|i: int| 0 <= i < c.files.len() implies exists|k: int|
        0 <= k < a.files.len() && (#[trigger] a.files[k]).id == (#[trigger] c.files[i]).id
            && a.files[k].path == c.files[i].path by {
        let j = choose|j: int|
            0 <= j < b.files.len() && (#[trigger] b.files[j]).id == c.files[i].id
                && b.files[j].path == c.files[i].path;
        let k = choose|k: int|
            0 <= k < a.files.len() && (#[trigger] a.files[k]).id == b.files[j].id
                && a.files[k].path == b.files[j].path;
        assert(a.files[k].id == c.files[i].id);
    }
}

/// Whether a message may change the files of the queue.
pub open spec fn touches_files(e: Event) -> bool {
    match e {
        Event::RemoveFile(_) => true,
        Event::ClearQueue => true,
        Event::ClearFinished => true,
        Event::SetFileTarget(_, _) => true,
        Event::ApplyGlobalTarget => true,
        Event::ToggleFileSelection(_) => true,
        Event::SelectAllFiles => true,
        Event::DeselectAllFiles => true,
        Event::RemoveSelectedFiles => true,
        Event::RetryFile(_) => true,
        Event::RetryFailed => true,
        Event::MoveFileUp(_) => true,
        Event::MoveFileDown(_) => true,
        Event::StopConversion => true,
        Event::ConversionFinished(_, _) => true,
        _ => false,
    }
}

/// Every other message leaves the queue as it is.
pub proof fn law_other_messages(m: ModelView, e: Event, clock: Clock)
    requires
        !touches_files(e),
    ensures
        update::next(m, e, clock).files == m.files,
        update::next(m, e, clock).next_id == m.next_id,
        update::next(m, e, clock).is_converting == m.is_converting,
{
    reveal(update::next);
}

proof fn lemma_step_remove(m: ModelView, id: u64, clock: Clock)
    ensures
        respects(m, update::next(m, Event::RemoveFile(id), clock)),
{
    reveal(update::next);
    lemma_respects_kept(
        m,
        update::Keep::OtherThan(id),
        update::next(m, Event::RemoveFile(id), clock),
    );
}

proof fn lemma_step_clear(m: ModelView, clock: Clock)
    ensures
        respects(m, update::next(m, Event::ClearQueue, clock)),
        respects(m, update::next(m, Event::ClearFinished, clock)),
{
    reveal(update::next);
    if m.is_converting {
        lemma_respects_kept(
            m,
            update::Keep::Converting,
            update::next(m, Event::ClearQueue, clock),
        );
    }
    lemma_respects_kept(m, update::Keep::NotDone, update::next(m, Event::ClearFinished, clock));
}

proof fn lemma_step_remove_selected(m: ModelView, clock: Clock)
    ensures
        respects(m, update::next(m, Event::RemoveSelectedFiles, clock)),
{
    reveal(update::next);
    let n = update::next(m, Event::RemoveSelectedFiles, clock);
    let rule = if m.is_converting {
        update::Keep::UnselectedOrConverting
    } else {
        update::Keep::Unselected
    };
    let mid = ModelView { files: update::kept(rule, m.files), ..m };
    lemma_respects_kept(m, rule, mid);
    assert(n.files =~= update::all_changed(update::Change::Deselect, mid.files));
    lemma_respects_same(mid, n);
    lemma_respects_both(m, mid, n);
}

proof fn lemma_step_change_one(m: ModelView, c: update::Change, id: u64, n: ModelView)
    requires
        c is FlipSelection || c is Retry,
        n.files == update::one_changed(c, m.files, id),
        n.next_id == m.next_id,
        n.is_converting == m.is_converting,
    ensures
        respects(m, n),
{
    queue::lemma_place(m.files, id);
    lemma_respects_same(m, n);
}

proof fn lemma_step_toggle(m: ModelView, id: u64, clock: Clock)
    ensures
        respects(m, update::next(m, Event::ToggleFileSelection(id), clock)),
{
    let n = update::next(m, Event::ToggleFileSelection(id), clock);
    assert(n.files == update::one_changed(update::Change::FlipSelection, m.files, id) && n.next_id
        == m.next_id && n.is_converting == m.is_converting) by {
        reveal(update::next);
    }
    lemma_step_change_one(m, update::Change::FlipSelection, id, n);
}

proof fn lemma_step_retry(m: ModelView, id: u64, clock: Clock)
    ensures
        respects(m, update::next(m, Event::RetryFile(id), clock)),
{
    let n = update::next(m, Event::RetryFile(id), clock);
    assert(n.files == update::one_changed(update::Change::Retry, m.files, id) && n.next_id
        == m.next_id && n.is_converting == m.is_converting) by {
        reveal(update::next);
    }
    lemma_step_change_one(m, update::Change::Retry, id, n);
}

proof fn lemma_step_target(m: ModelView, id: u64, idx: usize, clock: Clock)
    ensures
        respects(m, update::next(m, Event::SetFileTarget(id, idx), clock)),
{
    let n = update::next(m, Event::SetFileTarget(id, idx), clock);
    assert(n == update::with_target(m, id, idx)) by {
        reveal(update::next);
    }
    queue::lemma_place(m.files, id);
    lemma_respects_same(m, n);
}

proof fn lemma_step_change_all(m: ModelView, clock: Clock)
    ensures
        respects(m, update::next(m, Event::SelectAllFiles, clock)),
        respects(m, update::next(m, Event::DeselectAllFiles, clock)),
        respects(m, update::next(m, Event::RetryFailed, clock)),
        respects(m, update::next(m, Event::StopConversion, clock)),
{
    reveal(update::next);
    lemma_respects_same(m, update::next(m, Event::SelectAllFiles, clock));
    lemma_respects_same(m, update::next(m, Event::DeselectAllFiles, clock));
    lemma_respects_same(m, update::next(m, Event::RetryFailed, clock));
    lemma_respects_same(m, update::next(m, Event::StopConversion, clock));
}

proof fn lemma_step_swap(m: ModelView, i: int, n: ModelView)
    requires
        0 <= i < m.files.len() - 1,
        n.files =~= m.files.update(i, m.files[i + 1]).update(i + 1, m.files[i]),
        n.next_id == m.next_id,
        n.is_converting == m.is_converting,
    ensures
        respects(m, n),
{
    assert forall|j: int| 0 <= j < n.files.len() implies exists|k: int|
        0 <= k < m.files.len() && (#[trigger] m.files[k]).id == (#[trigger] n.files[j]).id
            && m.files[k].path == n.files[j].path by {
        let k = if j == i {
            i + 1
        } else if j == i + 1 {
            i
        } else {
            j
        };
        assert(m.files[k] == n.files[j]);
    }
    if well_formed(m) {
        lemma_swap_well_formed(m, i, n);
    }
}

proof fn lemma_step_up(m: ModelView, id: u64, clock: Clock)
    ensures
        respects(m, update::next(m, Event::MoveFileUp(id), clock)),
{
    let n = update::next(m, Event::MoveFileUp(id), clock);
    queue::lemma_place(m.files, id);
    let place = queue::place(m.files, id);
    if place is Some && place->0 > 0 {
        let i = place->0;
        assert(n.files == m.files.update(i, m.files[i - 1]).update(i - 1, m.files[i]) && n.next_id
            == m.next_id && n.is_converting == m.is_converting) by {
            reveal(update::next);
        }
        lemma_step_swap(m, i - 1, n);
    } else {
        assert(n == m) by {
            reveal(update::next);
        }
        lemma_respects_same(m, n);
    }
}

proof fn lemma_step_down(m: ModelView, id: u64, clock: Clock)
    ensures
        respects(m, update::next(m, Event::MoveFileDown(id), clock)),
{
    let n = update::next(m, Event::MoveFileDown(id), clock);
    queue::lemma_place(m.files, id);
    let place = queue::place(m.files, id);
    if place is Some && place->0 < m.files.len() - 1 {
        let i = place->0;
        assert(n.files == m.files.update(i, m.files[i + 1]).update(i + 1, m.files[i]) && n.next_id
            == m.next_id && n.is_converting == m.is_converting) by {
            reveal(update::next);
        }
        lemma_step_swap(m, i, n);
    } else {
        assert(n == m) by {
            reveal(update::next);
        }
        lemma_respects_same(m, n);
    }
}

proof fn lemma_step_finished(
    m: ModelView,
    id: u64,
    result: Result<Seq<char>, Seq<char>>,
    clock: Clock,
)
    ensures
        respects(m, update::next(m, Event::ConversionFinished(id, result), clock)),
{
    queue::lemma_place(m.files, id);
    let after = update::reported(m, id, result, clock);
    let n = update::next(m, Event::ConversionFinished(id, result), clock);
    assert(n.files == after.files && n.next_id == after.next_id && (n.is_converting
        == after.is_converting || update::all_settled(after.files))) by {
        reveal(update::next);
    }
    lemma_count_none(after.files, FileStatus::Converting);
    assert forall|i: int| 0 <= i < m.files.len() implies same_file(
        m.files[i],
        #[trigger] n.files[i],
    ) by {}
    lemma_respects_same(m, n);
}

proof fn lemma_step_apply(m: ModelView, clock: Clock)
    requires
        well_formed(m),
    ensures
        respects(m, update::next(m, Event::ApplyGlobalTarget, clock)),
{
    reveal(update::next);
    let n = update::next(m, Event::ApplyGlobalTarget, clock);
    if let Some(target) = update::batch_target(m) {
        assert forall|i: int| 0 <= i < m.files.len() implies same_file(
            m.files[i],
            #[trigger] n.files[i],
        ) by {
            let f = m.files[i];
            assert(n.files[i] == update::overridden(f, target));
            lemma_few_targets(f.source_ext);
            text::lemma_position(f.targets, target);
        }
    }
    lemma_respects_same(m, n);
}

/// Every message keeps the queue well formed. No message gives an id out or
/// takes one back: what is in the queue afterwards was in it before, under the
/// same id and path.
pub proof fn law_update_keeps_queue(m: ModelView, e: Event, clock: Clock)
    requires
        well_formed(m),
    ensures
        well_formed(update::next(m, e, clock)),
        update::next(m, e, clock).next_id == m.next_id,
        from_before(m, update::next(m, e, clock)),
{
    match e {
        Event::RemoveFile(id) => lemma_step_remove(m, id, clock),
        Event::ClearQueue => lemma_step_clear(m, clock),
        Event::ClearFinished => lemma_step_clear(m, clock),
        Event::RemoveSelectedFiles => lemma_step_remove_selected(m, clock),
        Event::ToggleFileSelection(id) => lemma_step_toggle(m, id, clock),
        Event::RetryFile(id) => lemma_step_retry(m, id, clock),
        Event::SetFileTarget(id, idx) => lemma_step_target(m, id, idx, clock),
        Event::SelectAllFiles => lemma_step_change_all(m, clock),
        Event::DeselectAllFiles => lemma_step_change_all(m, clock),
        Event::RetryFailed => lemma_step_change_all(m, clock),
        Event::StopConversion => lemma_step_change_all(m, clock),
        Event::MoveFileUp(id) => lemma_step_up(m, id, clock),
        Event::MoveFileDown(id) => lemma_step_down(m, id, clock),
        Event::ConversionFinished(id, result) => lemma_step_finished(m, id, result, clock),
        Event::ApplyGlobalTarget => lemma_step_apply(m, clock),
        _ => {
            law_other_messages(m, e, clock);
            lemma_respects_same(m, update::next(m, e, clock));
        },
    }
}

/// No list of targets is long, or empty.
pub proof fn lemma_few_targets(ext: Seq<char>)
    ensures
        0 < converters::targets(ext).len() <= 20,
{
    let f = text::lower(ext);
    names::lemma_names();
    match converters::kind_of(f) {
        converters::FileKind::Tabular => {
            lemma_without_len(seq!["xlsx"@, "json"@, "csv"@, "tsv"@], f);
            lemma_without_len(seq!["csv"@, "tsv"@, "json"@], f);
            lemma_without_len(seq!["csv"@, "tsv"@, "xlsx"@], f);
        },
        converters::FileKind::Image => {
            lemma_without_len(
                seq!["png"@, "jpg"@, "webp"@, "bmp"@, "tiff"@, "gif"@],
                converters::images::canonical(f),
            );
        },
        converters::FileKind::Audio => {
            lemma_without_len(converters::media::audio_formats(), text::lower(f));
        },
        converters::FileKind::Video => {
            lemma_without_len(converters::media::video_formats(), text::lower(f));
        },
        _ => {},
    }
}

proof fn lemma_without_len(v: Seq<Seq<char>>, x: Seq<char>)
    requires
        v.no_duplicates(),
    ensures
        v.len() - 1 <= text::without(v, x).len() <= v.len(),
    decreases v.len(),
{
    if v.len() > 0 {
        let rest = v.drop_last();
        assert(rest.no_duplicates());
        lemma_without_len(rest, x);
        if v.last() == x {
            lemma_without_all(rest, x);
        }
    }
}

proof fn lemma_without_all(v: Seq<Seq<char>>, x: Seq<char>)
    requires
        forall|i: int| 0 <= i < v.len() ==> v[i] != x,
    ensures
        text::without(v, x).len() == v.len(),
    decreases v.len(),
{
    if v.len() > 0 {
        lemma_without_all(v.drop_last(), x);
    }
}

/// Adding paths keeps the queue well formed.
pub proof fn law_adding_keeps_queue(m: ModelView, found: Seq<queue::FoundView>)
    requires
        well_formed(m),
        m.next_id + found.len() <= u64::MAX,
    ensures
        well_formed(queue::with_paths(m, found)),
{
    if found.len() > 0 {
        let s = queue::intake(m, found);
        lemma_intake_well_formed(m, found);
        let mid = ModelView { files: s.files, next_id: s.next_id, ..m };
        let n = queue::with_paths(m, found);
        lemma_same_files(mid, n);
    }
}

proof fn lemma_intake_well_formed(m: ModelView, found: Seq<queue::FoundView>)
    requires
        well_formed(m),
        m.next_id + found.len() <= u64::MAX,
    ensures
        well_formed(
            ModelView {
                files: queue::intake(m, found).files,
                next_id: queue::intake(m, found).next_id,
                ..m
            },
        ),
    decreases found.len(),
{
    if found.len() > 0 {
        let rest = found.drop_last();
        let seen = found.last();
        lemma_intake_well_formed(m, rest);
        queue::lemma_intake_ids(m, rest);
        let s = queue::intake(m, rest);
        let before = ModelView { files: s.files, next_id: s.next_id, ..m };
        let t = queue::intake(m, found);
        let after = ModelView { files: t.files, next_id: t.next_id, ..m };
        if !queue::queued(s.files, seen.path) && (seen.is_file || seen.is_dir) {
            let e = queue::new_entry(s.next_id, seen);
            lemma_new_entry(s.next_id, seen);
            assert forall|i: int, j: int| 0 <= i < j < after.files.len() implies apart(
                #[trigger] after.files[i],
                #[trigger] after.files[j],
            ) by {
                assert(after.files[i] == before.files[i]);
                if j < before.files.len() {
                    assert(after.files[j] == before.files[j]);
                } else {
                    assert(before.files[i].id < s.next_id);
                }
            }
            assert forall|i: int| 0 <= i < after.files.len() implies {
                let f = #[trigger] after.files[i];
                &&& f.id < after.next_id
                &&& f.targets == converters::targets(f.source_ext)
                &&& f.target_idx matches Some(k) ==> k < f.targets.len()
                &&& !after.is_converting ==> f.status != FileStatus::Converting
            } by {
                if i < before.files.len() {
                    assert(after.files[i] == before.files[i]);
                }
            }
        }
    }
}

/// A new entry offers the targets of its extension, one of them picked.
proof fn lemma_new_entry(id: u64, seen: queue::FoundView)
    ensures
        ({
            let e = queue::new_entry(id, seen);
            &&& e.id == id
            &&& e.path == seen.path
            &&& e.status == FileStatus::Pending
            &&& e.targets == converters::targets(e.source_ext)
            &&& e.target_idx matches Some(k) && k < e.targets.len()
        }),
{
    let ext = converters::ext(seen.path);
    let targets = converters::targets(ext);
    lemma_few_targets(ext);
    lemma_first_of(queue::preferred(ext), targets);
}

proof fn lemma_first_of(wishes: Seq<Seq<char>>, targets: Seq<Seq<char>>)
    requires
        targets.len() <= usize::MAX,
    ensures
        queue::first_of(wishes, targets) matches Some(i) ==> i < targets.len(),
    decreases wishes.len(),
{
    if wishes.len() > 0 {
        lemma_first_of(wishes.drop_last(), targets);
        text::lemma_position(targets, wishes.last());
    }
}

/// A new entry can be converted as it stands: the target picked for it is one
/// that its extension supports, and nothing speaks against it.
pub proof fn law_new_entries_convert(id: u64, seen: queue::FoundView)
    ensures
        queue::new_entry(id, seen).error is None,
        queue::target_of(queue::new_entry(id, seen)) matches Some(t) && converters::supported(
            queue::new_entry(id, seen).source_ext,
            t,
        ),
{
    let e = queue::new_entry(id, seen);
    let ext = converters::ext(seen.path);
    lemma_new_entry(id, seen);
    lemma_few_targets(ext);
    let t = e.targets[e.target_idx->0 as int];
    assert(converters::targets(ext).contains(t));
    if converters::is_archive(text::lower(ext)) {
        names::lemma_names();
        laws::law_archives_unpack(ext);
        assert(t == "extract"@);
    } else {
        laws::law_targets_are_supported(ext, t);
    }
}

/// The start of a batch keeps the queue well formed.
pub proof fn law_batch_keeps_queue(
    m: ModelView,
    selected_only: bool,
    folder_error: Option<Seq<char>>,
    folders: Seq<bool>,
    now: u64,
)
    requires
        well_formed(m),
    ensures
        well_formed(batch::batch_started(m, selected_only, folder_error, folders, now)),
{
    let n = batch::batch_started(m, selected_only, folder_error, folders, now);
    if !m.is_converting && folder_error is None {
        if !n.is_converting {
            assert forall|i: int| 0 <= i < n.files.len() implies (#[trigger] n.files[i]).status
                != FileStatus::Converting by {
                lemma_no_jobs(m, selected_only, folders, m.files.len(), i);
            }
        }
        assert forall|i: int| 0 <= i < m.files.len() implies same_file(
            m.files[i],
            #[trigger] n.files[i],
        ) by {}
    }
    lemma_same_files(m, n);
}

/// Where there are no jobs, no file is converted.
proof fn lemma_no_jobs(m: ModelView, selected_only: bool, folders: Seq<bool>, n: nat, i: int)
    requires
        batch::jobs(m, selected_only, folders, n).len() == 0,
        0 <= i < n <= m.files.len(),
    ensures
        !(batch::verdict_at(m, selected_only, folders, i) is Convert),
    decreases n,
{
    if i < n - 1 {
        lemma_no_jobs(m, selected_only, folders, (n - 1) as nat, i);
    }
}

/// Every file that a batch marks as converting has its job, in queue order,
/// with the output path that the file shows and the options of the settings.
pub proof fn law_jobs_match_files(
    m: ModelView,
    selected_only: bool,
    folders: Seq<bool>,
    now: u64,
    i: int,
)
    requires
        0 <= i < m.files.len(),
        !m.is_converting,
        m.files[i].status != FileStatus::Converting,
        batch::batch_started(m, selected_only, None, folders, now).files[i].status
            == FileStatus::Converting,
    ensures
        exists|k: int|
            0 <= k < batch::batch_jobs(m, selected_only, None, folders).len() && ({
                let job = #[trigger] batch::batch_jobs(m, selected_only, None, folders)[k];
                let f = batch::batch_started(m, selected_only, None, folders, now).files[i];
                job.id == f.id && job.input == f.path && Some(job.base) == f.output_path
                    && job.opts == batch::options_of(m)
            }),
{
    let target = batch::verdict_at(m, selected_only, folders, i)->Convert_0;
    lemma_job_listed(m, selected_only, folders, m.files.len(), i);
    let all = batch::jobs(m, selected_only, folders, m.files.len());
    let k = choose|k: int| 0 <= k < all.len() && all[k] == batch::job_of(m, m.files[i], target);
    assert(batch::batch_jobs(m, selected_only, None, folders)[k] == all[k]);
}

proof fn lemma_job_listed(m: ModelView, selected_only: bool, folders: Seq<bool>, n: nat, i: int)
    requires
        0 <= i < n <= m.files.len(),
        batch::verdict_at(m, selected_only, folders, i) is Convert,
    ensures
        batch::jobs(m, selected_only, folders, n).contains(
            batch::job_of(
                m,
                m.files[i],
                batch::verdict_at(m, selected_only, folders, i)->Convert_0,
            ),
        ),
    decreases n,
{
    let job = batch::job_of(
        m,
        m.files[i],
        batch::verdict_at(m, selected_only, folders, i)->Convert_0,
    );
    let now = batch::jobs(m, selected_only, folders, n);
    if i < n - 1 {
        lemma_job_listed(m, selected_only, folders, (n - 1) as nat, i);
        let before = batch::jobs(m, selected_only, folders, (n - 1) as nat);
        let k = choose|k: int| 0 <= k < before.len() && before[k] == job;
        assert(now[k] == job);
    } else {
        assert(now[now.len() - 1] == job);
    }
}

// ---------------------------------------------------------------------------
// Ids
// ---------------------------------------------------------------------------

/// Every file that joins the queue gets an id that no file has had.
pub proof fn law_ids_are_new(m: ModelView, found: Seq<queue::FoundView>, i: int)
    requires
        m.next_id + found.len() <= u64::MAX,
        m.files.len() <= i < queue::with_paths(m, found).files.len(),
    ensures
        m.next_id <= queue::with_paths(m, found).files[i].id < queue::with_paths(m, found).next_id,
{
    lemma_intake_new(m, found, i);
}

proof fn lemma_intake_new(m: ModelView, found: Seq<queue::FoundView>, i: int)
    requires
        m.next_id + found.len() <= u64::MAX,
        m.files.len() <= i < queue::intake(m, found).files.len(),
    ensures
        m.next_id <= queue::intake(m, found).files[i].id < queue::intake(m, found).next_id,
    decreases found.len(),
{
    if found.len() > 0 {
        let rest = found.drop_last();
        queue::lemma_intake_ids(m, rest);
        if i < queue::intake(m, rest).files.len() {
            lemma_intake_new(m, rest, i);
        }
    }
}

// ---------------------------------------------------------------------------
// What messages do
// ---------------------------------------------------------------------------

/// Files being converted are never dropped when a running queue is cleared or
/// its selection removed.
pub proof fn law_running_files_stay(m: ModelView, clock: Clock, k: int)
    requires
        m.is_converting,
        0 <= k < m.files.len(),
        m.files[k].status == FileStatus::Converting,
    ensures
        update::next(m, Event::ClearQueue, clock).files.contains(m.files[k]),
        update::next(m, Event::RemoveSelectedFiles, clock).files.contains(
            FileView { selected: false, ..m.files[k] },
        ),
{
    reveal(update::next);
    lemma_kept(update::Keep::Converting, m.files);
    lemma_kept(update::Keep::UnselectedOrConverting, m.files);
    let left = update::kept(update::Keep::UnselectedOrConverting, m.files);
    assert(left.contains(m.files[k]));
    let i = choose|i: int| 0 <= i < left.len() && left[i] == m.files[k];
    let n = update::next(m, Event::RemoveSelectedFiles, clock);
    assert(n.files[i] == (FileView { selected: false, ..m.files[k] }));
}

/// A removed file is gone, and no other is.
pub proof fn law_remove(m: ModelView, id: u64, clock: Clock)
    ensures
        forall|i: int|
            0 <= i < update::next(m, Event::RemoveFile(id), clock).files.len() ==> (
            #[trigger] update::next(m, Event::RemoveFile(id), clock).files[i]).id != id,
        forall|k: int|
            0 <= k < m.files.len() && (#[trigger] m.files[k]).id != id ==> update::next(
                m,
                Event::RemoveFile(id),
                clock,
            ).files.contains(m.files[k]),
{
    reveal(update::next);
    lemma_kept(update::Keep::OtherThan(id), m.files);
}

/// Clearing what is finished leaves no finished file, and every other.
pub proof fn law_clear_finished(m: ModelView, clock: Clock)
    ensures
        forall|i: int|
            0 <= i < update::next(m, Event::ClearFinished, clock).files.len() ==> (
            #[trigger] update::next(m, Event::ClearFinished, clock).files[i]).status
                != FileStatus::Done,
        forall|k: int|
            0 <= k < m.files.len() && (#[trigger] m.files[k]).status != FileStatus::Done
                ==> update::next(m, Event::ClearFinished, clock).files.contains(m.files[k]),
{
    reveal(update::next);
    lemma_kept(update::Keep::NotDone, m.files);
}

/// After a retry of all no file is failed.
pub proof fn law_retry_leaves_no_failure(m: ModelView, clock: Clock)
    ensures
        queue::count_status(
            update::next(m, Event::RetryFailed, clock).files,
            FileStatus::Failed,
        ) == 0,
{
    reveal(update::next);
    lemma_count_none(update::next(m, Event::RetryFailed, clock).files, FileStatus::Failed);
}

/// After a stop nothing is being converted.
pub proof fn law_stop_leaves_nothing_running(m: ModelView, clock: Clock)
    requires
        well_formed(m),
    ensures
        !update::next(m, Event::StopConversion, clock).is_converting,
        queue::count_status(
            update::next(m, Event::StopConversion, clock).files,
            FileStatus::Converting,
        ) == 0,
{
    reveal(update::next);
    lemma_count_none(
        update::next(m, Event::StopConversion, clock).files,
        FileStatus::Converting,
    );
}

/// Selecting a file twice changes nothing.
pub proof fn law_selection_toggles_back(m: ModelView, id: u64, clock: Clock)
    ensures
        update::next(
            update::next(m, Event::ToggleFileSelection(id), clock),
            Event::ToggleFileSelection(id),
            clock,
        ) == m,
{
    reveal(update::next);
    let n = update::next(m, Event::ToggleFileSelection(id), clock);
    queue::lemma_place(m.files, id);
    lemma_place_same_ids(m.files, n.files, id);
    let back = update::next(n, Event::ToggleFileSelection(id), clock);
    assert(back.files =~= m.files);
}

/// Marking a favourite twice changes nothing.
pub proof fn law_favorite_toggles_back(m: ModelView, idx: usize, clock: Clock)
    ensures
        update::next(
            update::next(m, Event::ToggleHistoryFavorite(idx), clock),
            Event::ToggleHistoryFavorite(idx),
            clock,
        ) == m,
{
    reveal(update::next);
    let n = update::next(m, Event::ToggleHistoryFavorite(idx), clock);
    let back = update::next(n, Event::ToggleHistoryFavorite(idx), clock);
    assert(back.history =~= m.history);
}

/// Ids in the same places are found in the same places.
proof fn lemma_place_same_ids(a: Seq<FileView>, b: Seq<FileView>, id: u64)
    requires
        a.len() == b.len(),
        forall|i: int| 0 <= i < a.len() ==> (#[trigger] a[i]).id == (#[trigger] b[i]).id,
    ensures
        queue::place(a, id) == queue::place(b, id),
    decreases a.len(),
{
    if a.len() > 0 {
        assert forall|i: int| 0 <= i < a.drop_last().len() implies (#[trigger] a.drop_last()[i]).id
            == (#[trigger] b.drop_last()[i]).id by {
            assert(a[i].id == b[i].id);
        }
        lemma_place_same_ids(a.drop_last(), b.drop_last(), id);
        assert(a[a.len() - 1].id == b[b.len() - 1].id);
    }
}

/// Where ids are not given out twice, a file is found where it stands.
proof fn lemma_place_unique(files: Seq<FileView>, i: int)
    requires
        0 <= i < files.len(),
        forall|a: int, b: int|
            0 <= a < b < files.len() ==> (#[trigger] files[a]).id != (#[trigger] files[b]).id,
    ensures
        queue::place(files, files[i].id) == Some(i),
    decreases files.len(),
{
    queue::lemma_place(files, files[i].id);
    let p = queue::place(files, files[i].id);
    if p is None {
        assert(files[i].id != files[i].id);
    } else if p->0 < i {
        assert(files[p->0].id != files[i].id);
    } else if p->0 > i {
        assert(files[i].id != files[p->0].id);
    }
}

/// Moving a file up and down again changes nothing, if it can move up at all.
pub proof fn law_move_up_and_down(m: ModelView, i: int, clock: Clock)
    requires
        well_formed(m),
        0 < i < m.files.len(),
    ensures
        update::next(
            update::next(m, Event::MoveFileUp(m.files[i].id), clock),
            Event::MoveFileDown(m.files[i].id),
            clock,
        ) == m,
{
    reveal(update::next);
    let id = m.files[i].id;
    assert forall|a: int, b: int| 0 <= a < b < m.files.len() implies (#[trigger] m.files[a]).id != (
    #[trigger] m.files[b]).id by {
        assert(apart(m.files[a], m.files[b]));
    }
    lemma_place_unique(m.files, i);
    let n = update::next(m, Event::MoveFileUp(id), clock);
    lemma_swap_well_formed(m, i - 1, n);
    assert forall|a: int, b: int| 0 <= a < b < n.files.len() implies (#[trigger] n.files[a]).id != (
    #[trigger] n.files[b]).id by {
        assert(apart(n.files[a], n.files[b]));
    }
    assert(n.files[i - 1] == m.files[i]);
    lemma_place_unique(n.files, i - 1);
    let back = update::next(n, Event::MoveFileDown(id), clock);
    assert(back.files =~= m.files);
}

/// A batch target that was let go of when it left the offer: after a removal
/// or an addition the one picked is on offer.
pub proof fn law_batch_target_on_offer(
    m: ModelView,
    id: u64,
    found: Seq<queue::FoundView>,
    clock: Clock,
)
    requires
        found.len() > 0,
    ensures
        ({
            let n = update::next(m, Event::RemoveFile(id), clock);
            n.global_target_idx matches Some(i) ==> i < queue::offered(n.files).len()
        }),
        ({
            let n = update::next(m, Event::RemoveSelectedFiles, clock);
            n.global_target_idx matches Some(i) ==> i < queue::offered(n.files).len()
        }),
        ({
            let n = queue::with_paths(m, found);
            n.global_target_idx matches Some(i) ==> i < queue::offered(n.files).len()
        }),
{
    reveal(update::next);
}

/// The history never grows beyond its limit; a finished conversion of a queued
/// file brings even a longer one back to it, with that conversion last.
pub proof fn law_history_is_bounded(m: ModelView, e: Event, clock: Clock)
    ensures
        m.history.len() <= history::HISTORY_LIMIT ==> update::next(m, e, clock).history.len()
            <= history::HISTORY_LIMIT,
        e matches Event::ConversionFinished(id, result) ==> queue::place(m.files, id) is Some ==> {
            let h = update::next(m, e, clock).history;
            &&& 0 < h.len() <= history::HISTORY_LIMIT
            &&& h.last().success == result is Ok
            &&& h.last().finished_at == clock.secs
        },
{
    reveal(update::next);
    if let Event::RemoveFile(id) = e {
        lemma_settle(ModelView {
            files: update::kept(update::Keep::OtherThan(id), m.files),
            ..m
        });
    }
}

// ---------------------------------------------------------------------------
// Output names
// ---------------------------------------------------------------------------

/// A search for a free name ends with the free name of the least number, unless
/// all are taken; with the plain name if that is free.
pub proof fn law_free_name(base: Seq<char>, taken: spec_fn(Seq<char>) -> bool)
    ensures
        !taken(base) ==> batch::free_path(base, taken, 0) == base,
        (exists|n: nat| n < 1000 && !taken(#[trigger] batch::candidate(base, n)))
            ==> !taken(batch::free_path(base, taken, 0)),
        forall|n: nat|
            n < 1000 && !taken(#[trigger] batch::candidate(base, n)) && (forall|m: nat|
                m < n ==> taken(#[trigger] batch::candidate(base, m))) ==> batch::free_path(
                base,
                taken,
                0,
            ) == batch::candidate(base, n),
        (forall|n: nat| n < 1000 ==> taken(#[trigger] batch::candidate(base, n)))
            ==> batch::free_path(base, taken, 0) == base,
{
    assert forall|n: nat|
        n < batch::NAMES_TRIED && !taken(#[trigger] batch::candidate(base, n)) && (forall|m: nat|
            m < n ==> taken(#[trigger] batch::candidate(base, m))) implies batch::free_path(
        base,
        taken,
        0,
    ) == batch::candidate(base, n) by {
        lemma_least_free(base, taken, 0, n);
    }
    if exists|n: nat| n < batch::NAMES_TRIED && !taken(#[trigger] batch::candidate(base, n)) {
        let n = choose|n: nat|
            n < batch::NAMES_TRIED && !taken(#[trigger] batch::candidate(base, n));
        lemma_free_from(base, taken, 0, n);
    }
    if forall|n: nat| n < batch::NAMES_TRIED ==> taken(#[trigger] batch::candidate(base, n)) {
        lemma_all_taken(base, taken, 0);
    }
}

proof fn lemma_least_free(base: Seq<char>, taken: spec_fn(Seq<char>) -> bool, k: nat, n: nat)
    requires
        k <= n < batch::NAMES_TRIED,
        !taken(batch::candidate(base, n)),
        forall|m: nat| m < n ==> taken(#[trigger] batch::candidate(base, m)),
    ensures
        batch::free_path(base, taken, k) == batch::candidate(base, n),
    decreases n - k,
{
    if k < n {
        lemma_least_free(base, taken, k + 1, n);
    }
}

proof fn lemma_free_from(base: Seq<char>, taken: spec_fn(Seq<char>) -> bool, k: nat, n: nat)
    requires
        k <= n < batch::NAMES_TRIED,
        !taken(batch::candidate(base, n)),
    ensures
        !taken(batch::free_path(base, taken, k)),
    decreases n - k,
{
    if taken(batch::candidate(base, k)) {
        lemma_free_from(base, taken, k + 1, n);
    }
}

proof fn lemma_all_taken(base: Seq<char>, taken: spec_fn(Seq<char>) -> bool, k: nat)
    requires
        forall|n: nat| n < batch::NAMES_TRIED ==> taken(#[trigger] batch::candidate(base, n)),
    ensures
        batch::free_path(base, taken, k) == base,
    decreases batch::NAMES_TRIED - k,
{
    if k < batch::NAMES_TRIED {
        lemma_all_taken(base, taken, k + 1);
    }
}

} // verus!
