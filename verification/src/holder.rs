//! The model holder: a registry of loaded voices, bounded by a capacity and
//! emptied in least-recently-used order.

use vstd::prelude::*;
use crate::error::Error;
use crate::laws::lemma_load_keeps_invariant;
use crate::sbv2file::{
    aivmx_contents, parse_aivmx, parse_sbv2file, sbv2_contents, Outcome, StyleTensor,
};
use crate::style::{tensor_rows, StyleTable};

verus! {

/// One loaded voice: its identity, its style table, its inference session,
/// and the tick at which it was last loaded or used.
pub struct LoadedModel<S, T> {
    pub ident: String,
    pub style_table: StyleTable<T>,
    pub session: S,
    pub last_used: u64,
}

/// The bound that a configured maximum puts on the registry: zero, like no
/// maximum at all, puts none.
pub open spec fn capacity(max_loaded_models: Option<usize>) -> Option<int> {
    match max_loaded_models {
        Some(m) if m > 0 => Some(m as int),
        _ => None,
    }
}

/// An entry is loaded under `ident`.
pub open spec fn holds<S, T>(models: Seq<LoadedModel<S, T>>, ident: Seq<char>) -> bool {
    exists|i: int| 0 <= i < models.len() && (#[trigger] models[i]).ident@ == ident
}

/// Where the entry loaded under `ident` stands.
pub open spec fn index_of<S, T>(models: Seq<LoadedModel<S, T>>, ident: Seq<char>) -> int {
    choose|i: int| 0 <= i < models.len() && (#[trigger] models[i]).ident@ == ident
}

/// The registry without the entry loaded under `ident`.
pub open spec fn without<S, T>(models: Seq<LoadedModel<S, T>>, ident: Seq<char>) -> Seq<
    LoadedModel<S, T>,
> {
    if holds(models, ident) {
        models.remove(index_of(models, ident))
    } else {
        models
    }
}

/// Entry `k` is the one to evict: no entry was used earlier, and of those
/// used at the same tick it was inserted first.
pub open spec fn is_oldest<S, T>(models: Seq<LoadedModel<S, T>>, k: int) -> bool {
    &&& 0 <= k < models.len()
    &&& forall|j: int| 0 <= j < models.len() ==> models[k].last_used <= (#[trigger] models[j]).last_used
    &&& forall|j: int| 0 <= j < k ==> models[k].last_used < (#[trigger] models[j]).last_used
}

/// Where the entry to evict stands.
pub open spec fn oldest<S, T>(models: Seq<LoadedModel<S, T>>) -> int {
    choose|k: int| is_oldest(models, k)
}

/// The registry with room for one more entry: at capacity, the least
/// recently used entry is gone.
pub open spec fn with_room<S, T>(
    models: Seq<LoadedModel<S, T>>,
    max_loaded_models: Option<usize>,
) -> Seq<LoadedModel<S, T>> {
    match capacity(max_loaded_models) {
        Some(m) if models.len() >= m => models.remove(oldest(models)),
        _ => models,
    }
}

/// The registry after `entry` is loaded: an entry of the same identity is
/// replaced, room is made, and the new entry comes last.
pub open spec fn admitted<S, T>(
    models: Seq<LoadedModel<S, T>>,
    max_loaded_models: Option<usize>,
    entry: LoadedModel<S, T>,
) -> Seq<LoadedModel<S, T>> {
    with_room(without(models, entry.ident@), max_loaded_models).push(entry)
}

/// The registry after the entry under `ident` is used at tick `stamp`.
pub open spec fn touched<S, T>(models: Seq<LoadedModel<S, T>>, ident: Seq<char>, stamp: u64) -> Seq<
    LoadedModel<S, T>,
> {
    if holds(models, ident) {
        let i = index_of(models, ident);
        models.update(
            i,
            LoadedModel {
                ident: models[i].ident,
                style_table: models[i].style_table,
                session: models[i].session,
                last_used: stamp,
            },
        )
    } else {
        models
    }
}

/// The invariant of a registry: identities are unique, the capacity is
/// kept, and the ticks of the entries are distinct and not ahead of the
/// counter.
pub open spec fn registry_wf<S, T>(
    models: Seq<LoadedModel<S, T>>,
    tick: u64,
    max_loaded_models: Option<usize>,
) -> bool {
    &&& forall|i: int, j: int|
        0 <= i < j < models.len() ==> (#[trigger] models[i]).ident@ != (#[trigger] models[j]).ident@
    &&& forall|i: int, j: int|
        0 <= i < j < models.len() ==> (#[trigger] models[i]).last_used != (
        #[trigger] models[j]).last_used
    &&& forall|i: int| 0 <= i < models.len() ==> (#[trigger] models[i]).last_used <= tick
    &&& capacity(max_loaded_models) matches Some(m) ==> models.len() <= m
}

/// In a registry with unique identities, an entry under `ident` stands
/// where `index_of` says.
pub proof fn lemma_index_of<S, T>(models: Seq<LoadedModel<S, T>>, ident: Seq<char>, i: int)
    requires
        forall|a: int, b: int|
            0 <= a < b < models.len() ==> (#[trigger] models[a]).ident@ != (
            #[trigger] models[b]).ident@,
        0 <= i < models.len(),
        models[i].ident@ == ident,
    ensures
        holds(models, ident),
        index_of(models, ident) == i,
{
    let k = index_of(models, ident);
    if k < i {
        assert(models[k].ident@ != models[i].ident@);
    } else if i < k {
        assert(models[i].ident@ != models[k].ident@);
    }
}

/// The entry to evict is determined: two entries cannot both be the oldest.
pub proof fn lemma_oldest<S, T>(models: Seq<LoadedModel<S, T>>, k: int)
    requires
        is_oldest(models, k),
    ensures
        oldest(models) == k,
{
    let c = oldest(models);
    assert(is_oldest(models, c));
    if c < k {
        assert(models[k].last_used < models[c].last_used);
        assert(models[c].last_used <= models[k].last_used);
    } else if k < c {
        assert(models[c].last_used < models[k].last_used);
        assert(models[k].last_used <= models[c].last_used);
    }
}

/// Taking an entry out keeps the invariant, and leaves no entry under the
/// identity that was taken out.
pub proof fn lemma_remove_keeps_wf<S, T>(
    models: Seq<LoadedModel<S, T>>,
    tick: u64,
    max_loaded_models: Option<usize>,
    i: int,
)
    requires
        registry_wf(models, tick, max_loaded_models),
        0 <= i < models.len(),
    ensures
        registry_wf(models.remove(i), tick, max_loaded_models),
        !holds(models.remove(i), models[i].ident@),
        forall|ident: Seq<char>| !holds(models, ident) ==> !holds(models.remove(i), ident),
{
    let rest = models.remove(i);
    assert forall|k: int| 0 <= k < rest.len() implies #[trigger] rest[k] == models[if k < i {
        k
    } else {
        k + 1
    }] by {}
    assert forall|a: int, b: int| 0 <= a < b < rest.len() implies (#[trigger] rest[a]).ident@ != (
    #[trigger] rest[b]).ident@ && rest[a].last_used != rest[b].last_used by {
        let a0 = if a < i { a } else { a + 1 };
        let b0 = if b < i { b } else { b + 1 };
        assert(rest[a] == models[a0]);
        assert(rest[b] == models[b0]);
    }
    assert forall|k: int| 0 <= k < rest.len() implies (#[trigger] rest[k]).last_used <= tick by {
        let k0 = if k < i { k } else { k + 1 };
        assert(rest[k] == models[k0]);
    }
    assert forall|k: int| 0 <= k < rest.len() implies (#[trigger] rest[k]).ident@
        != models[i].ident@ by {
        let k0 = if k < i { k } else { k + 1 };
        assert(rest[k] == models[k0]);
        if k0 < i {
            assert(models[k0].ident@ != models[i].ident@);
        } else {
            assert(models[i].ident@ != models[k0].ident@);
        }
    }
    assert forall|ident: Seq<char>| !holds(models, ident) implies !holds(rest, ident) by {
        if holds(rest, ident) {
            let k = index_of(rest, ident);
            let k0 = if k < i { k } else { k + 1 };
            assert(rest[k] == models[k0]);
            assert(models[k0].ident@ == ident);
        }
    }
}

/// What using an entry comes to. A style id outside the table is refused;
/// otherwise the result is whatever `run` gives for the entry's session, the
/// vector of the style, and the text, speaker and options as they were
/// passed.
pub open spec fn synthesis<S, T, O, F: FnOnce(&S, &Vec<T>, &str, i64, O) -> Result<Vec<u8>, Error>>(
    entry: LoadedModel<S, T>,
    text: &str,
    style_id: i32,
    speaker_id: i64,
    options: O,
    run: F,
    r: Result<Vec<u8>, Error>,
) -> bool {
    if 0 <= style_id < entry.style_table.shape().0 {
        exists|vector: &Vec<T>|
            vector@ == entry.style_table@[style_id as int] && run.ensures(
                (&entry.session, vector, text, speaker_id, options),
                r,
            )
    } else {
        r == Err::<Vec<u8>, Error>(Error::StyleOutOfRange)
    }
}

/// The model holder. `S` is the type of an inference session and `T` that of
/// a style-vector element; the holder owns both and looks into neither.
pub struct TTSModel<S, T> {
    models: Vec<LoadedModel<S, T>>,
    tick: u64,
    max_loaded_models: Option<usize>,
}

impl<S, T> View for TTSModel<S, T> {
    type V = Seq<LoadedModel<S, T>>;

    /// The loaded entries, in insertion order.
    closed spec fn view(&self) -> Seq<LoadedModel<S, T>> {
        self.models@
    }
}

impl<S, T> TTSModel<S, T> {
    /// The counter that stamps the entries.
    pub closed spec fn tick(&self) -> u64 {
        self.tick
    }

    /// The configured maximum.
    pub closed spec fn limit(&self) -> Option<usize> {
        self.max_loaded_models
    }

    /// The holder keeps its invariant.
    pub open spec fn wf(&self) -> bool {
        registry_wf(self@, self.tick(), self.limit())
    }

    /// An empty holder. With no maximum, or a maximum of zero, it is
    /// unbounded.
    pub fn new(max_loaded_models: Option<usize>) -> (r: Self)
        ensures
            r@ == Seq::<LoadedModel<S, T>>::empty(),
            r.tick() == 0,
            r.limit() == max_loaded_models,
            r.wf(),
    {
        TTSModel { models: Vec::new(), tick: 0, max_loaded_models }
    }

    /// The number of loaded voices.
    pub fn len(&self) -> (r: usize)
        ensures
            r == self@.len(),
    {
        self.models.len()
    }

    /// The configured maximum.
    pub fn max_loaded_models(&self) -> (r: Option<usize>)
        ensures
            r == self.limit(),
    {
        self.max_loaded_models
    }

    /// Whether the counter can stamp one more load or use.
    pub fn can_stamp(&self) -> (r: bool)
        ensures
            r == (self.tick() < u64::MAX),
    {
        self.tick < u64::MAX
    }

    fn find(&self, ident: &String) -> (r: Option<usize>)
        ensures
            match r {
                Some(i) => i < self@.len() && self@[i as int].ident@ == ident@,
                None => !holds(self@, ident@),
            },
    {
        let mut i: usize = 0;
        while i < self.models.len()
            invariant
                i <= self.models@.len(),
                forall|k: int| 0 <= k < i ==> (#[trigger] self.models@[k]).ident@ != ident@,
            decreases self.models@.len() - i,
        {
            if self.models[i].ident == *ident {
                return Some(i);
            }
            i += 1;
        }
        None
    }

    /// Whether a voice is loaded under `ident`. The answer changes nothing:
    /// asking does not count as a use.
    pub fn contains(&self, ident: &str) -> (r: bool)
        ensures
            r == holds(self@, ident@),
    {
        let key = ident.to_owned();
        self.find(&key).is_some()
    }

    /// The tick at which the voice under `ident` was last loaded or used.
    pub fn last_used(&self, ident: &str) -> (r: Option<u64>)
        requires
            self.wf(),
        ensures
            match r {
                Some(t) => holds(self@, ident@) && t == self@[index_of(self@, ident@)].last_used,
                None => !holds(self@, ident@),
            },
    {
        let key = ident.to_owned();
        match self.find(&key) {
            Some(i) => {
                proof {
                    lemma_index_of(self@, ident@, i as int);
                }
                Some(self.models[i].last_used)
            },
            None => None,
        }
    }

    fn oldest_index(&self) -> (r: usize)
        requires
            self@.len() > 0,
        ensures
            is_oldest(self@, r as int),
    {
        let mut best: usize = 0;
        let mut i: usize = 1;
        while i < self.models.len()
            invariant
                0 <= best < i <= self.models@.len(),
                forall|j: int| 0 <= j < i ==> self.models@[best as int].last_used <= (
                #[trigger] self.models@[j]).last_used,
                forall|j: int| 0 <= j < best ==> self.models@[best as int].last_used < (
                #[trigger] self.models@[j]).last_used,
            decreases self.models@.len() - i,
        {
            if self.models[i].last_used < self.models[best].last_used {
                best = i;
            }
            i += 1;
        }
        best
    }

    /// Removes the voice under `ident`, and says whether there was one.
    pub fn unload(&mut self, ident: &str) -> (r: bool)
        requires
            old(self).wf(),
        ensures
            final(self).wf(),
            r == holds(old(self)@, ident@),
            final(self)@ == without(old(self)@, ident@),
            !holds(final(self)@, ident@),
            final(self).tick() == old(self).tick(),
            final(self).limit() == old(self).limit(),
            capacity(final(self).limit()) matches Some(n) ==> final(self)@.len() <= n,
    {
        let key = ident.to_owned();
        match self.find(&key) {
            Some(i) => {
                proof {
                    lemma_index_of(self@, ident@, i as int);
                    lemma_remove_keeps_wf(self@, self.tick(), self.limit(), i as int);
                }
                let _ = self.models.remove(i);
                true
            },
            None => false,
        }
    }

    /// Loads a voice under `ident`, stamped with the next tick. A voice
    /// already loaded under `ident` is dropped first; then, at capacity, the
    /// least recently used voice is evicted; the new one is inserted last.
    pub fn insert(&mut self, ident: String, style_table: StyleTable<T>, session: S)
        requires
            old(self).wf(),
            old(self).tick() < u64::MAX,
        ensures
            final(self).wf(),
            final(self)@ == admitted(
                old(self)@,
                old(self).limit(),
                (LoadedModel {
                    ident,
                    style_table,
                    session,
                    last_used: (old(self).tick() + 1) as u64,
                }),
            ),
            final(self).tick() == old(self).tick() + 1,
            final(self).limit() == old(self).limit(),
            holds(final(self)@, ident@),
            capacity(final(self).limit()) matches Some(n) ==> final(self)@.len() <= n,
    {
        let stamp = self.tick + 1;
        match self.find(&ident) {
            Some(i) => {
                proof {
                    lemma_index_of(self@, ident@, i as int);
                }
                let _ = self.models.remove(i);
            },
            None => {},
        }
        let ghost kept = self@;
        assert(kept == without(old(self)@, ident@));
        match self.max_loaded_models {
            Some(max) => {
                if max > 0 && self.models.len() >= max {
                    let k = self.oldest_index();
                    proof {
                        lemma_oldest(self@, k as int);
                    }
                    let _ = self.models.remove(k);
                }
            },
            None => {},
        }
        assert(self@ == with_room(kept, old(self).limit()));
        let entry = LoadedModel { ident, style_table, session, last_used: stamp };
        proof {
            lemma_load_keeps_invariant(old(self)@, old(self).tick(), old(self).limit(), entry);
        }
        self.models.push(entry);
        self.tick = stamp;
    }
}

/// What loading decoded package parts comes to. Where `build` fails, its
/// error is returned and the holder is as before; where it gives a style
/// table and a session, they are inserted under `ident`.
pub open spec fn load_outcome<S, T, P, F: FnOnce(P, Vec<u8>) -> Result<(StyleTable<T>, S), Error>>(
    before: TTSModel<S, T>,
    after: TTSModel<S, T>,
    ident: String,
    style_vectors: P,
    model: Vec<u8>,
    build: F,
    r: Result<(), Error>,
) -> bool {
    match r {
        Err(e) => after == before && build.ensures(
            (style_vectors, model),
            Err::<(StyleTable<T>, S), Error>(e),
        ),
        Ok(_) => exists|style_table: StyleTable<T>, session: S|
            {
                &&& build.ensures(
                    (style_vectors, model),
                    Ok::<(StyleTable<T>, S), Error>((style_table, session)),
                )
                &&& after@ == admitted(
                    before@,
                    before.limit(),
                    (LoadedModel {
                        ident,
                        style_table,
                        session,
                        last_used: (before.tick() + 1) as u64,
                    }),
                )
                &&& after.tick() == before.tick() + 1
                &&& after.limit() == before.limit()
            },
    }
}

impl<S, T> TTSModel<S, T> {
    /// Loads a voice from the decoded parts of a package. `build` makes the
    /// style table from the style vectors and opens the session on the
    /// synthesizer bytes; nothing is dropped or evicted before it has
    /// succeeded.
    pub fn load<P, F: FnOnce(P, Vec<u8>) -> Result<(StyleTable<T>, S), Error>>(
        &mut self,
        ident: String,
        style_vectors: P,
        model: Vec<u8>,
        build: F,
    ) -> (r: Result<(), Error>)
        requires
            old(self).wf(),
            old(self).tick() < u64::MAX,
            build.requires((style_vectors, model)),
        ensures
            final(self).wf(),
            load_outcome(*old(self), *final(self), ident, style_vectors, model, build, r),
            r is Err ==> *final(self) == *old(self),
            r is Ok ==> holds(final(self)@, ident@),
            capacity(final(self).limit()) matches Some(n) ==> final(self)@.len() <= n,
    {
        match build(style_vectors, model) {
            Err(e) => Err(e),
            Ok((style_table, session)) => {
                self.insert(ident, style_table, session);
                Ok(())
            },
        }
    }

    /// Loads a voice from a package in the compressed-archive format.
    pub fn load_sbv2file<F: FnOnce(Vec<u8>, Vec<u8>) -> Result<(StyleTable<T>, S), Error>>(
        &mut self,
        ident: String,
        sbv2_bytes: &[u8],
        build: F,
    ) -> (r: Result<(), Error>)
        requires
            old(self).wf(),
            old(self).tick() < u64::MAX,
            forall|style_vectors: Vec<u8>, model: Vec<u8>| build.requires((style_vectors, model)),
        ensures
            final(self).wf(),
            r is Err ==> *final(self) == *old(self),
            r is Ok ==> holds(final(self)@, ident@),
            capacity(final(self).limit()) matches Some(n) ==> final(self)@.len() <= n,
            match sbv2_contents(sbv2_bytes@) {
                Outcome::Corrupt => r == Err::<(), Error>(Error::PackageCorrupt),
                Outcome::Missing(name) => r matches Err(e) && e.is_missing(name),
                Outcome::Mismatch => r == Err::<(), Error>(Error::ShapeMismatch),
                Outcome::Found(style, model) => exists|a: Vec<u8>, b: Vec<u8>|
                    a@ == style && b@ == model && load_outcome(
                        *old(self),
                        *final(self),
                        ident,
                        a,
                        b,
                        build,
                        r,
                    ),
            },
    {
        match parse_sbv2file(sbv2_bytes) {
            Err(e) => Err(e),
            Ok((style_vectors, model)) => self.load(ident, style_vectors, model, build),
        }
    }

    /// Synthesizes `text` with the voice under `ident`. A found voice
    /// becomes the most recently used at once, whatever follows; then the
    /// style is looked up, and `run` does the rest: the text pipeline and
    /// the inference.
    pub fn synthesize<O, F: FnOnce(&S, &Vec<T>, &str, i64, O) -> Result<Vec<u8>, Error>>(
        &mut self,
        ident: &str,
        text: &str,
        style_id: i32,
        speaker_id: i64,
        options: O,
        run: F,
    ) -> (r: Result<Vec<u8>, Error>)
        requires
            old(self).wf(),
            old(self).tick() < u64::MAX,
            forall|session: &S, vector: &Vec<T>|
                run.requires((session, vector, text, speaker_id, options)),
        ensures
            final(self).wf(),
            final(self).limit() == old(self).limit(),
            final(self)@.len() == old(self)@.len(),
            capacity(final(self).limit()) matches Some(n) ==> final(self)@.len() <= n,
            if holds(old(self)@, ident@) {
                &&& final(self)@ == touched(old(self)@, ident@, (old(self).tick() + 1) as u64)
                &&& final(self).tick() == old(self).tick() + 1
                &&& synthesis(
                    old(self)@[index_of(old(self)@, ident@)],
                    text,
                    style_id,
                    speaker_id,
                    options,
                    run,
                    r,
                )
            } else {
                &&& *final(self) == *old(self)
                &&& r matches Err(e) && e.is_unknown(ident@)
            },
    {
        let key = ident.to_owned();
        let i = match self.find(&key) {
            Some(i) => i,
            None => { return Err(Error::UnknownIdentity(key)); },
        };
        proof {
            lemma_index_of(self@, ident@, i as int);
        }
        let stamp = self.tick + 1;
        self.tick = stamp;
        self.models[i].last_used = stamp;
        proof {
            let before = old(self)@;
            let now = self@;
            assert(now =~= touched(before, ident@, stamp));
            assert forall|k: int| 0 <= k < now.len() implies (#[trigger] now[k]).ident@
                == before[k].ident@ by {}
            assert(registry_wf(now, stamp, old(self).limit()));
        }
        let entry = &self.models[i];
        match entry.style_table.get(style_id) {
            Err(_) => Err(Error::StyleOutOfRange),
            Ok(vector) => run(&entry.session, vector, text, speaker_id, options),
        }
    }
}

/// What loading the parts of a single-file package comes to. The tensor is
/// two-dimensional. Where `decode` fails, its error is returned; where the
/// decoded elements do not fit the declared shape, the load fails with
/// `ShapeMismatch`; where `open` fails, its error is returned; in each case
/// the holder is as before. Otherwise the rows of the tensor, in row-major
/// order, and the session are inserted under `ident`.
pub open spec fn aivmx_outcome<
    S,
    T,
    D: FnOnce(&StyleTensor) -> Result<Vec<T>, Error>,
    F: FnOnce(Vec<u8>) -> Result<S, Error>,
>(
    before: TTSModel<S, T>,
    after: TTSModel<S, T>,
    ident: String,
    tensor: StyleTensor,
    model: Vec<u8>,
    decode: D,
    open: F,
    r: Result<(), Error>,
) -> bool {
    exists|decoded: Result<Vec<T>, Error>|
        #![trigger decode.ensures((&tensor,), decoded)]
        decode.ensures((&tensor,), decoded) && match decoded {
            Err(e) => r == Err::<(), Error>(e) && after == before,
            Ok(data) => match tensor_rows(tensor.shape@, tensor.fortran, data@) {
                None => r == Err::<(), Error>(Error::ShapeMismatch) && after == before,
                Some(rows) => exists|opened: Result<S, Error>|
                    #![trigger open.ensures((model,), opened)]
                    open.ensures((model,), opened) && match opened {
                        Err(e) => r == Err::<(), Error>(e) && after == before,
                        Ok(session) => r is Ok && exists|style_table: StyleTable<T>|
                            #![trigger style_table@]
                            {
                                &&& style_table@ == rows
                                &&& style_table.shape() == (
                                    tensor.shape@[0] as int,
                                    tensor.shape@[1] as int,
                                )
                                &&& after@ == admitted(
                                    before@,
                                    before.limit(),
                                    (LoadedModel {
                                        ident,
                                        style_table,
                                        session,
                                        last_used: (before.tick() + 1) as u64,
                                    }),
                                )
                                &&& after.tick() == before.tick() + 1
                                &&& after.limit() == before.limit()
                            },
                    },
            },
        }
}

impl<S, T: Copy> TTSModel<S, T> {
    /// Loads a voice from a package in the single-file format, whose
    /// metadata value under `aivm_style_vectors` is `style_vectors`.
    /// `decode` reads the elements of the tensor file, in stored order;
    /// the style table is built from them here; `open` opens the session
    /// on the package bytes. Nothing is dropped or evicted before all of it
    /// has succeeded.
    pub fn load_aivmx<
        D: FnOnce(&StyleTensor) -> Result<Vec<T>, Error>,
        F: FnOnce(Vec<u8>) -> Result<S, Error>,
    >(
        &mut self,
        ident: String,
        aivmx_bytes: &[u8],
        style_vectors: Option<&str>,
        decode: D,
        open: F,
    ) -> (r: Result<(), Error>)
        requires
            old(self).wf(),
            old(self).tick() < u64::MAX,
            forall|tensor: &StyleTensor| decode.requires((tensor,)),
            forall|model: Vec<u8>| open.requires((model,)),
        ensures
            final(self).wf(),
            r is Err ==> *final(self) == *old(self),
            r is Ok ==> holds(final(self)@, ident@),
            capacity(final(self).limit()) matches Some(n) ==> final(self)@.len() <= n,
            match aivmx_contents(
                aivmx_bytes@,
                match style_vectors {
                    Some(text) => Some(text@),
                    None => None,
                },
            ) {
                Outcome::Corrupt => r == Err::<(), Error>(Error::PackageCorrupt),
                Outcome::Missing(name) => r matches Err(e) && e.is_missing(name),
                Outcome::Mismatch => r == Err::<(), Error>(Error::ShapeMismatch),
                Outcome::Found(tensor, model) => exists|a: StyleTensor, b: Vec<u8>|
                    #![trigger a.shape, b@]
                    a.shape@ == tensor.0 && a.fortran == tensor.1 && a.file@ == tensor.2 && b@
                        == model && aivmx_outcome(
                        *old(self),
                        *final(self),
                        ident,
                        a,
                        b,
                        decode,
                        open,
                        r,
                    ),
            },
    {
        let (tensor, model) = match parse_aivmx(aivmx_bytes, style_vectors) {
            Err(e) => { return Err(e); },
            Ok(parts) => parts,
        };
        let decoded = decode(&tensor);
        let data = match decoded {
            Err(e) => { return Err(e); },
            Ok(data) => data,
        };
        let style_table = match StyleTable::from_tensor(tensor.shape.as_slice(), tensor.fortran, data) {
            Err(_) => { return Err(Error::ShapeMismatch); },
            Ok(style_table) => style_table,
        };
        let opened = open(model);
        match opened {
            Err(e) => Err(e),
            Ok(session) => {
                self.insert(ident, style_table, session);
                Ok(())
            },
        }
    }
}

} // verus!
