//! What holds of the holder over every sequence of operations, stated over
//! the functions that the contracts of the operations use.

use vstd::prelude::*;
use crate::holder::{
    admitted, capacity, holds, index_of, is_oldest, lemma_index_of,
    lemma_remove_keeps_wf, oldest, registry_wf, touched, with_room, without, LoadedModel,
};
use crate::sbv2file::{
    all_read, entry_read, last_under, model_path, sbv2_contents, selected, style_path, Outcome,
};
use crate::style::{tensor_rows, well_shaped};
use crate::trusted::{tar_entries, zstd_decoded};

verus! {

/// Entry `k` is the one to evict among the first `n` entries.
spec fn is_oldest_of_first<S, T>(models: Seq<LoadedModel<S, T>>, n: int, k: int) -> bool {
    &&& 0 <= k < n
    &&& forall|j: int| 0 <= j < n ==> models[k].last_used <= (#[trigger] models[j]).last_used
    &&& forall|j: int| 0 <= j < k ==> models[k].last_used < (#[trigger] models[j]).last_used
}

proof fn lemma_oldest_of_first<S, T>(models: Seq<LoadedModel<S, T>>, n: int) -> (k: int)
    requires
        0 < n <= models.len(),
    ensures
        is_oldest_of_first(models, n, k),
    decreases n,
{
    if n == 1 {
        0
    } else {
        let p = lemma_oldest_of_first(models, n - 1);
        if models[n - 1].last_used < models[p].last_used {
            n - 1
        } else {
            p
        }
    }
}

/// A registry that is not empty has an entry to evict.
pub proof fn lemma_oldest_exists<S, T>(models: Seq<LoadedModel<S, T>>)
    requires
        models.len() > 0,
    ensures
        is_oldest(models, oldest(models)),
{
    let k = lemma_oldest_of_first(models, models.len() as int);
    assert(is_oldest(models, k));
}

/// Unloading keeps the invariant, so the registry stays within its
/// capacity, and leaves no entry under the identity.
pub proof fn lemma_unload_keeps_invariant<S, T>(
    models: Seq<LoadedModel<S, T>>,
    tick: u64,
    max_loaded_models: Option<usize>,
    ident: Seq<char>,
)
    requires
        registry_wf(models, tick, max_loaded_models),
    ensures
        registry_wf(without(models, ident), tick, max_loaded_models),
        !holds(without(models, ident), ident),
        capacity(max_loaded_models) matches Some(m) ==> without(models, ident).len() <= m,
{
    if holds(models, ident) {
        lemma_remove_keeps_wf(models, tick, max_loaded_models, index_of(models, ident));
    }
}

/// Making room keeps the invariant and leaves the registry below its
/// capacity.
pub proof fn lemma_room_keeps_invariant<S, T>(
    models: Seq<LoadedModel<S, T>>,
    tick: u64,
    max_loaded_models: Option<usize>,
)
    requires
        registry_wf(models, tick, max_loaded_models),
    ensures
        registry_wf(with_room(models, max_loaded_models), tick, max_loaded_models),
        capacity(max_loaded_models) matches Some(m) ==> with_room(models, max_loaded_models).len()
            < m,
        forall|ident: Seq<char>|
            !holds(models, ident) ==> !holds(with_room(models, max_loaded_models), ident),
{
    if let Some(m) = capacity(max_loaded_models) {
        if models.len() >= m {
            lemma_oldest_exists(models);
            lemma_remove_keeps_wf(models, tick, max_loaded_models, oldest(models));
        }
    }
}

/// Loading keeps the invariant: after every load the registry holds at most
/// as many entries as its capacity allows, under distinct identities.
pub proof fn lemma_load_keeps_invariant<S, T>(
    models: Seq<LoadedModel<S, T>>,
    tick: u64,
    max_loaded_models: Option<usize>,
    entry: LoadedModel<S, T>,
)
    requires
        registry_wf(models, tick, max_loaded_models),
        tick < u64::MAX,
        entry.last_used == tick + 1,
    ensures
        registry_wf(admitted(models, max_loaded_models, entry), (tick + 1) as u64, max_loaded_models),
        capacity(max_loaded_models) matches Some(m) ==> admitted(
            models,
            max_loaded_models,
            entry,
        ).len() <= m,
        holds(admitted(models, max_loaded_models, entry), entry.ident@),
{
    let kept = without(models, entry.ident@);
    lemma_unload_keeps_invariant(models, tick, max_loaded_models, entry.ident@);
    let room = with_room(kept, max_loaded_models);
    lemma_room_keeps_invariant(kept, tick, max_loaded_models);
    let now = room.push(entry);
    assert(now[now.len() - 1] == entry);
    assert forall|i: int| 0 <= i < room.len() implies #[trigger] now[i] == room[i] by {}
    assert forall|i: int| 0 <= i < room.len() implies (#[trigger] now[i]).ident@
        != entry.ident@ by {
        assert(room[i].ident@ == now[i].ident@);
    }
}

/// Using an entry keeps the invariant and the registry's length, and every
/// entry keeps its place, identity, style table and session: a use evicts
/// nothing.
pub proof fn lemma_use_keeps_entries<S, T>(
    models: Seq<LoadedModel<S, T>>,
    tick: u64,
    max_loaded_models: Option<usize>,
    ident: Seq<char>,
)
    requires
        registry_wf(models, tick, max_loaded_models),
        tick < u64::MAX,
    ensures
        registry_wf(touched(models, ident, (tick + 1) as u64), (tick + 1) as u64, max_loaded_models),
        touched(models, ident, (tick + 1) as u64).len() == models.len(),
        forall|i: int|
            0 <= i < models.len() ==> {
                let used = #[trigger] touched(models, ident, (tick + 1) as u64)[i];
                &&& used.ident == models[i].ident
                &&& used.style_table == models[i].style_table
                &&& used.session == models[i].session
            },
        forall|other: Seq<char>|
            holds(models, other) <==> holds(touched(models, ident, (tick + 1) as u64), other),
{
    let used = touched(models, ident, (tick + 1) as u64);
    assert forall|i: int| 0 <= i < models.len() implies (#[trigger] used[i]).ident
        == models[i].ident && used[i].style_table == models[i].style_table && used[i].session
        == models[i].session by {}
    assert forall|other: Seq<char>| holds(models, other) <==> holds(used, other) by {
        if holds(models, other) {
            let i = index_of(models, other);
            assert(used[i].ident@ == other);
        }
        if holds(used, other) {
            let i = index_of(used, other);
            assert(models[i].ident@ == other);
        }
    }
    assert forall|i: int, j: int| 0 <= i < j < used.len() implies (#[trigger] used[i]).ident@ != (
    #[trigger] used[j]).ident@ && used[i].last_used != used[j].last_used by {
        assert(used[i].ident == models[i].ident);
        assert(used[j].ident == models[j].ident);
    }
}

/// A use right after a load evicts nothing: whatever the registry held
/// before the load and no longer holds after the use, the load itself
/// removed, and the load removed at most the replaced entry and one more.
pub proof fn lemma_use_after_load<S, T>(
    models: Seq<LoadedModel<S, T>>,
    tick: u64,
    max_loaded_models: Option<usize>,
    entry: LoadedModel<S, T>,
)
    requires
        registry_wf(models, tick, max_loaded_models),
        tick + 1 < u64::MAX,
        entry.last_used == tick + 1,
    ensures
        ({
            let loaded = admitted(models, max_loaded_models, entry);
            let used = touched(loaded, entry.ident@, (tick + 2) as u64);
            &&& used.len() == loaded.len()
            &&& loaded.len() >= without(models, entry.ident@).len()
            &&& forall|other: Seq<char>| holds(loaded, other) <==> holds(used, other)
        }),
{
    lemma_load_keeps_invariant(models, tick, max_loaded_models, entry);
    let loaded = admitted(models, max_loaded_models, entry);
    lemma_use_keeps_entries(loaded, (tick + 1) as u64, max_loaded_models, entry.ident@);
    let kept = without(models, entry.ident@);
    if let Some(m) = capacity(max_loaded_models) {
        if kept.len() >= m {
            lemma_oldest_exists(kept);
        }
    }
}

/// Eviction takes the least recently used: an entry that a load of another
/// identity removes was used no later than any entry that stays.
pub proof fn lemma_load_evicts_least_recent<S, T>(
    models: Seq<LoadedModel<S, T>>,
    tick: u64,
    max_loaded_models: Option<usize>,
    entry: LoadedModel<S, T>,
    i: int,
    j: int,
)
    requires
        registry_wf(models, tick, max_loaded_models),
        0 <= i < models.len(),
        0 <= j < models.len(),
        models[i].ident@ != entry.ident@,
        models[j].ident@ != entry.ident@,
        !holds(admitted(models, max_loaded_models, entry), models[i].ident@),
    ensures
        models[i].last_used <= models[j].last_used,
{
    let kept = without(models, entry.ident@);
    let room = with_room(kept, max_loaded_models);
    let now = admitted(models, max_loaded_models, entry);
    // Where entries `i` and `j` stand once the replaced entry is gone.
    let (ki, kj) = if holds(models, entry.ident@) {
        let x = index_of(models, entry.ident@);
        (if i < x { i } else { i - 1 }, if j < x { j } else { j - 1 })
    } else {
        (i, j)
    };
    assert(kept[ki] == models[i] && kept[kj] == models[j]);
    if room == kept {
        assert(now[ki] == kept[ki]);
        assert(holds(now, models[i].ident@));
    } else {
        lemma_oldest_exists(kept);
        let k = oldest(kept);
        assert(room == kept.remove(k));
        if ki != k {
            let ri = if ki < k { ki } else { ki - 1 };
            assert(room[ri] == kept[ki]);
            assert(now[ri] == room[ri]);
            assert(holds(now, models[i].ident@));
        }
        assert(kept[k].last_used <= kept[kj].last_used);
    }
}

/// Which session and which style vector a use selects does not depend on
/// when the entries were used: after a use, the same identity selects the
/// same entry, with the same style table and session.
pub proof fn lemma_use_keeps_selection<S, T>(
    models: Seq<LoadedModel<S, T>>,
    tick: u64,
    max_loaded_models: Option<usize>,
    ident: Seq<char>,
    stamp: u64,
)
    requires
        registry_wf(models, tick, max_loaded_models),
        holds(models, ident),
    ensures
        holds(touched(models, ident, stamp), ident),
        index_of(touched(models, ident, stamp), ident) == index_of(models, ident),
        touched(models, ident, stamp)[index_of(models, ident)].style_table
            == models[index_of(models, ident)].style_table,
        touched(models, ident, stamp)[index_of(models, ident)].session
            == models[index_of(models, ident)].session,
{
    let used = touched(models, ident, stamp);
    let i = index_of(models, ident);
    assert forall|a: int, b: int| 0 <= a < b < used.len() implies (#[trigger] used[a]).ident@ != (
    #[trigger] used[b]).ident@ by {
        assert(used[a].ident == models[a].ident);
        assert(used[b].ident == models[b].ident);
    }
    lemma_index_of(used, ident, i);
}

/// The rows of a tensor with a fitting two-dimensional shape are as many as
/// the shape's first side and each as long as its second: a style table can
/// be built from them under that shape.
pub proof fn lemma_tensor_rows_well_shaped<T>(shape: Seq<u64>, fortran: bool, data: Seq<T>)
    requires
        tensor_rows(shape, fortran, data) is Some,
    ensures
        well_shaped(shape[0] as int, shape[1] as int, tensor_rows(shape, fortran, data).unwrap()),
{
}

/// A tensor stored column by column comes out transposed: the table has
/// the declared shape, and its row `i` holds at `j` the element that stands
/// at `j * rows + i` in the buffer, so row 0 is the first column of the
/// buffer read row by row.
pub proof fn lemma_fortran_rows_are_columns<T>(shape: Seq<u64>, data: Seq<T>)
    requires
        tensor_rows(shape, true, data) is Some,
    ensures
        ({
            let rows = tensor_rows(shape, true, data).unwrap();
            &&& rows.len() == shape[0]
            &&& forall|i: int| 0 <= i < shape[0] ==> (#[trigger] rows[i]).len() == shape[1]
            &&& forall|i: int, j: int|
                0 <= i < shape[0] && 0 <= j < shape[1] ==> #[trigger] rows[i][j] == data[j
                    * shape[0] + i]
        }),
{
}

/// A tensor stored row by row keeps its order: row `i` holds at `j` the
/// element that stands at `i * cols + j` in the buffer.
pub proof fn lemma_c_rows_are_rows<T>(shape: Seq<u64>, data: Seq<T>)
    requires
        tensor_rows(shape, false, data) is Some,
    ensures
        ({
            let rows = tensor_rows(shape, false, data).unwrap();
            &&& rows.len() == shape[0]
            &&& forall|i: int| 0 <= i < shape[0] ==> (#[trigger] rows[i]).len() == shape[1]
            &&& forall|i: int, j: int|
                0 <= i < shape[0] && 0 <= j < shape[1] ==> #[trigger] rows[i][j] == data[i
                    * shape[1] + j]
        }),
{
}

/// A stream that does not decompress, or whose archive cannot be walked, is
/// a corrupt package.
pub proof fn lemma_undecodable_stream_is_corrupt(bytes: Seq<u8>)
    requires
        zstd_decoded(bytes) is None || tar_entries(zstd_decoded(bytes).unwrap()) is None,
    ensures
        sbv2_contents(bytes) == Outcome::<Seq<u8>>::Corrupt,
{
}

/// An archive with an item that could not be parsed, or an entry that was
/// not read to its declared size, is corrupt, wherever the item stands and
/// whatever the other entries hold.
pub proof fn lemma_broken_archive_is_corrupt(
    items: Seq<Option<(Seq<u8>, u64, Option<Seq<u8>>)>>,
    i: int,
)
    requires
        0 <= i < items.len(),
        !entry_read(items[i]),
    ensures
        selected(items) == Outcome::<Seq<u8>>::Corrupt,
{
}

/// In an archive that was read in full, an entry is found under a path
/// exactly where some entry is stored under it.
pub proof fn lemma_last_under_finds(
    items: Seq<Option<(Seq<u8>, u64, Option<Seq<u8>>)>>,
    path: Seq<u8>,
)
    requires
        all_read(items),
    ensures
        last_under(items, path) is Some <==> exists|i: int|
            0 <= i < items.len() && (#[trigger] items[i]).unwrap().0 == path,
    decreases items.len(),
{
    if items.len() > 0 {
        let rest = items.drop_last();
        assert forall|i: int| 0 <= i < rest.len() implies entry_read(#[trigger] rest[i]) by {
            assert(rest[i] == items[i]);
        }
        lemma_last_under_finds(rest, path);
        assert(entry_read(items[items.len() - 1]));
        if items.last().unwrap().0 == path {
            assert(items[items.len() - 1].unwrap().0 == path);
        } else {
            if last_under(rest, path) is Some {
                let i = choose|i: int| 0 <= i < rest.len() && (#[trigger] rest[i]).unwrap().0 == path;
                assert(items[i] == rest[i]);
            }
            if exists|i: int| 0 <= i < items.len() && (#[trigger] items[i]).unwrap().0 == path {
                let i = choose|i: int|
                    0 <= i < items.len() && (#[trigger] items[i]).unwrap().0 == path;
                assert(rest[i] == items[i]);
            }
        }
    }
}

/// A package is found exactly in an archive that was read in full and
/// stores an entry under each of the two required paths; in an archive read
/// in full without an entry for the style vectors, that entry is the one
/// reported missing.
pub proof fn lemma_found_exactly_with_both(items: Seq<Option<(Seq<u8>, u64, Option<Seq<u8>>)>>)
    ensures
        selected(items) is Found <==> {
            &&& all_read(items)
            &&& exists|i: int|
                0 <= i < items.len() && (#[trigger] items[i]).unwrap().0 == style_path()
            &&& exists|i: int|
                0 <= i < items.len() && (#[trigger] items[i]).unwrap().0 == model_path()
        },
        all_read(items) && !(exists|i: int|
            0 <= i < items.len() && (#[trigger] items[i]).unwrap().0 == style_path())
            ==> selected(items) == Outcome::<Seq<u8>>::Missing("style_vectors"@),
{
    if all_read(items) {
        lemma_last_under_finds(items, style_path());
        lemma_last_under_finds(items, model_path());
    }
}

} // verus!
