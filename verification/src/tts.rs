//! The voices that are loaded, and which of them hold a model.
//!
//! A holder keeps any number of voices by name. Each has its style table;
//! a model it has only while it is resident. Where a limit is set, at most
//! that many voices are resident at a time, and a voice that is needed
//! takes the place of the resident voice that was loaded first. What makes
//! a model from its bytes is the caller's: the holder decides when it is
//! called and what becomes of its result.

use vstd::prelude::*;
use crate::error::Error;
use crate::ident::TTSIdent;
use crate::sbv2file::{parse_sbv2file, parsed};
use crate::speech::{
    failed_at,
    ran,
    spoken,
    spoken_upto,
    spoken_with,
    style_vector_in,
    told,
    Piece,
};
use crate::style::{describes, fits_shape, get_style_vector, load_style, Data, StyleTable};
use crate::tts_util::{segments, split_segments};
use crate::utils::copy_of;
use crate::voices::{
    added,
    budget_allows,
    evicted,
    first_resident,
    first_resident_upto,
    found,
    found_upto,
    installed,
    is_resident_in,
    lemma_added_wf,
    lemma_first_resident_bounds,
    lemma_first_resident_stays,
    lemma_found_bounds,
    lemma_found_same_names,
    lemma_found_stays,
    lemma_installed_wf,
    lemma_removed_wf,
    removed,
    resident_count,
    resident_upto,
    voices_of,
    voices_wf,
};

verus! {

/// One voice. `S` is what the inference engine gives for a model.
pub struct TTSModel<S> {
    /// The model, while the voice is resident.
    pub vits2: Option<S>,
    pub style_vectors: StyleTable,
    pub ident: TTSIdent,
    /// The bytes of the model, kept where a limit is set, so that the
    /// model can be made again.
    pub bytes: Option<Vec<u8>>,
}

/// A voice as plain values.
pub ghost struct Voice<S> {
    pub ident: Seq<char>,
    pub session: Option<S>,
    pub style: StyleTable,
    pub bytes: Option<Seq<u8>>,
}

impl<S> View for TTSModel<S> {
    type V = Voice<S>;

    open spec fn view(&self) -> Voice<S> {
        Voice {
            ident: self.ident@,
            session: self.vits2,
            style: self.style_vectors,
            bytes: match self.bytes {
                Some(b) => Some(b@),
                None => None,
            },
        }
    }
}

/// High-level holder of the voices.
pub struct TTSModelHolder<S> {
    models: Vec<TTSModel<S>>,
    max_loaded_models: Option<usize>,
}

/// What a voice needs before it can speak.
pub enum Residency {
    /// The voice holds its model.
    Resident,
    /// The voice needs its model made from these bytes.
    NeedsModel(Vec<u8>),
}

/// Whether `after` and `r` are what loading a voice gives from the voices
/// `before`. Nothing changes where a voice of this name is loaded already.
/// Where the budget allows no more resident voice, the voice is loaded
/// without a model. Else `load_model` makes the model from `bytes`; the
/// voice is loaded with it, or, where that fails, nothing changes.
pub open spec fn loaded<S, F: FnOnce(&Vec<u8>) -> Result<S, String>>(
    load_model: F,
    before: Seq<Voice<S>>,
    limit: Option<usize>,
    ident: Seq<char>,
    style: StyleTable,
    bytes: Seq<u8>,
    after: Seq<Voice<S>>,
    r: Result<(), Error>,
) -> bool {
    if found(before, ident) is Some {
        r is Ok && after == before
    } else if !budget_allows(before, limit) {
        r is Ok && after == added(before, limit, ident, style, bytes, None)
    } else {
        exists|given: &Vec<u8>, made: Result<S, String>|
            given@ == bytes && #[trigger] call_ensures(load_model, (given,), made) && match made {
                Ok(session) => r is Ok && after == added(
                    before,
                    limit,
                    ident,
                    style,
                    bytes,
                    Some(session),
                ),
                Err(message) => r matches Err(Error::ModelLoadError(m)) && m@ == message@ && after
                    == before,
            }
    }
}

/// Whether `after` and `r` are what loading a voice whose name is new
/// gives from the voices `before`, where `read_style` reads the style
/// table from `style_bytes`. Where that fails, or where what it gives does
/// not fit its shape, nothing changes; else the voice is loaded with the
/// table that it describes.
pub open spec fn loaded_with_style<
    S,
    D: FnOnce(&Vec<u8>) -> Result<Data, String>,
    F: FnOnce(&Vec<u8>) -> Result<S, String>,
>(
    read_style: D,
    load_model: F,
    before: Seq<Voice<S>>,
    limit: Option<usize>,
    ident: Seq<char>,
    style_bytes: Seq<u8>,
    model_bytes: Seq<u8>,
    after: Seq<Voice<S>>,
    r: Result<(), Error>,
) -> bool {
    exists|member: &Vec<u8>, read: Result<Data, String>|
        member@ == style_bytes && #[trigger] call_ensures(read_style, (member,), read)
            && match read {
            Err(message) => r matches Err(Error::ModelLoadError(m)) && m@ == message@ && after
                == before,
            Ok(data) => if !fits_shape(data) {
                r is Err && r->Err_0 is ModelLoadError && after == before
            } else {
                exists|table: StyleTable|
                    describes(data, table) && #[trigger] loaded(
                        load_model,
                        before,
                        limit,
                        ident,
                        table,
                        model_bytes,
                        after,
                        r,
                    )
            },
        }
}

/// Whether `after` and `r` are what seeing to the residency of the voice
/// `ident` gives from the voices `before`. A voice that is not loaded is
/// not found. A resident voice stays as it is. Else `load_model` makes the
/// model from the bytes that were kept; where it fails, or where the limit
/// is zero, nothing changes; else the model is installed.
pub open spec fn made_resident<S, F: FnOnce(&Vec<u8>) -> Result<S, String>>(
    load_model: F,
    before: Seq<Voice<S>>,
    limit: Option<usize>,
    ident: Seq<char>,
    after: Seq<Voice<S>>,
    r: Result<bool, Error>,
) -> bool {
    match found(before, ident) {
        None => r matches Err(Error::ModelNotFoundError(name)) && name@ == ident && after
            == before,
        Some(i) => match (before[i].session, before[i].bytes) {
            (Some(_), _) => r == Ok::<bool, Error>(true) && after == before,
            (None, None) => r matches Err(Error::ModelNotFoundError(name)) && name@ == ident
                && after == before,
            (None, Some(kept)) => exists|bytes: &Vec<u8>, made: Result<S, String>|
                bytes@ == kept && #[trigger] call_ensures(load_model, (bytes,), made)
                    && match made {
                    Err(message) => r matches Err(Error::ModelLoadError(m)) && m@ == message@
                        && after == before,
                    Ok(session) => if limit == Some(0usize) {
                        r is Err && r->Err_0 is ModelLoadError && after == before
                    } else {
                        r == Ok::<bool, Error>(true) && after == installed(
                            before,
                            limit,
                            i,
                            session,
                        )
                    },
                },
        },
    }
}

/// Loading a voice twice is loading it once: after a voice was loaded,
/// loading a voice of its name again, whatever its style table and its
/// bytes, changes nothing and makes no model.
pub proof fn lemma_load_twice<
    S,
    F: FnOnce(&Vec<u8>) -> Result<S, String>,
    G: FnOnce(&Vec<u8>) -> Result<S, String>,
>(
    first: F,
    second: G,
    before: Seq<Voice<S>>,
    limit: Option<usize>,
    ident: Seq<char>,
    style: StyleTable,
    bytes: Seq<u8>,
    between: Seq<Voice<S>>,
    other_style: StyleTable,
    other_bytes: Seq<u8>,
    after: Seq<Voice<S>>,
    r: Result<(), Error>,
)
    requires
        loaded(first, before, limit, ident, style, bytes, between, Ok::<(), Error>(())),
        loaded(second, between, limit, ident, other_style, other_bytes, after, r),
    ensures
        r is Ok,
        after == between,
        found(between, ident) is Some,
{
    lemma_found_bounds(before, ident, before.len() as int);
    lemma_found_bounds(between, ident, between.len() as int);
    if found(before, ident) is None {
        assert(between.len() == before.len() + 1);
        assert(between[before.len() as int].ident == ident);
    }
}

impl<S> TTSModelHolder<S> {
    /// The voices, in the order in which they were loaded.
    pub closed spec fn voices(&self) -> Seq<Voice<S>> {
        voices_of(self.models@)
    }

    /// The greatest number of voices that may be resident at a time.
    pub closed spec fn limit(&self) -> Option<usize> {
        self.max_loaded_models
    }

    /// Whether the holder is as every holder is: no two of its voices have
    /// one name; under a limit no more voices than that are resident and
    /// each has its bytes; without a limit each is resident.
    pub open spec fn wf(&self) -> bool {
        voices_wf(self.voices(), self.limit())
    }

    /// A holder without voices.
    pub fn new(max_loaded_models: Option<usize>) -> (holder: TTSModelHolder<S>)
        ensures
            holder.wf(),
            holder.voices() == Seq::<Voice<S>>::empty(),
            holder.limit() == max_loaded_models,
    {
        let holder = TTSModelHolder { models: Vec::new(), max_loaded_models };
        assert(holder.voices() =~= Seq::<Voice<S>>::empty());
        holder
    }

    /// The names of the voices, in the order in which they were loaded.
    pub fn models(&self) -> (names: Vec<String>)
        ensures
            names.len() == self.voices().len(),
            forall|i: int| 0 <= i < names.len() ==> (#[trigger] names@[i])@ == self.voices()[i].ident,
    {
        let mut names: Vec<String> = Vec::new();
        let mut i: usize = 0;
        while i < self.models.len()
            invariant
                i <= self.models.len(),
                names.len() == i,
                forall|k: int| 0 <= k < i ==> (#[trigger] names@[k])@ == self.models@[k].ident@,
            decreases self.models.len() - i,
        {
            names.push(self.models[i].ident.to_string());
            i += 1;
        }
        names
    }

    fn find_index(&self, ident: &str) -> (r: Option<usize>)
        ensures
            match r {
                Some(i) => found(self.voices(), ident@) == Some(i as int) && i < self.models.len(),
                None => found(self.voices(), ident@) is None,
            },
    {
        let ghost voices = self.voices();
        let name = TTSIdent::new(ident);
        let mut i: usize = 0;
        while i < self.models.len()
            invariant
                i <= self.models.len(),
                voices == voices_of(self.models@),
                name@ == ident@,
                found_upto(voices, ident@, i as int) is None,
            decreases self.models.len() - i,
        {
            assert(voices[i as int] == self.models@[i as int]@);
            if self.models[i].ident.is(&name) {
                proof {
                    lemma_found_stays(voices, ident@, i + 1, voices.len() as int);
                }
                return Some(i);
            }
            i += 1;
        }
        None
    }

    fn count_resident(&self) -> (n: usize)
        ensures
            n == resident_count(self.voices()),
    {
        let ghost voices = self.voices();
        let mut n: usize = 0;
        let mut i: usize = 0;
        while i < self.models.len()
            invariant
                i <= self.models.len(),
                voices == voices_of(self.models@),
                n == resident_upto(voices, i as int),
                n <= i,
            decreases self.models.len() - i,
        {
            assert(voices[i as int] == self.models@[i as int]@);
            if self.models[i].vits2.is_some() {
                n += 1;
            }
            i += 1;
        }
        n
    }

    fn has_room(&self) -> (room: bool)
        ensures
            room == budget_allows(self.voices(), self.limit()),
    {
        match self.max_loaded_models {
            Some(max) => self.count_resident() < max,
            None => true,
        }
    }

    /// Whether a voice of this name is loaded.
    pub fn contains(&self, ident: &str) -> (b: bool)
        ensures
            b == found(self.voices(), ident@) is Some,
    {
        self.find_index(ident).is_some()
    }

    /// Whether the voice of this name is loaded and resident.
    pub fn is_resident(&self, ident: &str) -> (b: bool)
        ensures
            b == match found(self.voices(), ident@) {
                Some(i) => self.voices()[i].session is Some,
                None => false,
            },
    {
        match self.find_index(ident) {
            Some(i) => {
                assert(self.voices()[i as int] == self.models@[i as int]@);
                self.models[i].vits2.is_some()
            },
            None => false,
        }
    }

    /// Whether loading a voice of this name now would make a model: the
    /// name is new and the budget allows one more resident voice.
    pub fn wants_model(&self, ident: &str) -> (wanted: bool)
        ensures
            wanted == (found(self.voices(), ident@) is None && budget_allows(
                self.voices(),
                self.limit(),
            )),
    {
        self.find_index(ident).is_none() && self.has_room()
    }

    /// Loads a voice, given what making its model gave: `model` is `None`
    /// where no model was made. Nothing happens where a voice of this name
    /// is loaded already. A model that failed to be made leaves the holder
    /// as it was, and so does a model that is missing where no limit is
    /// set, since every voice is resident there. A model that the budget
    /// does not allow is dropped, and the voice is loaded without it.
    pub fn load_made(
        &mut self,
        ident: &str,
        style_vectors: StyleTable,
        vits2_bytes: Vec<u8>,
        model: Option<Result<S, String>>,
    ) -> (r: Result<(), Error>)
        requires
            old(self).wf(),
        ensures
            final(self).wf(),
            final(self).limit() == old(self).limit(),
            found(old(self).voices(), ident@) is Some ==> r is Ok && final(self).voices() == old(self).voices(),
            found(old(self).voices(), ident@) is None ==> match model {
                Some(Err(message)) => r matches Err(Error::ModelLoadError(m)) && m@ == message@
                    && final(self).voices() == old(self).voices(),
                Some(Ok(session)) => r is Ok && final(self).voices() == added(
                    old(self).voices(),
                    old(self).limit(),
                    ident@,
                    style_vectors,
                    vits2_bytes@,
                    if budget_allows(old(self).voices(), old(self).limit()) {
                        Some(session)
                    } else {
                        None
                    },
                ),
                None => if old(self).limit() is None {
                    r is Err && r->Err_0 is ModelLoadError && final(self).voices() == old(self).voices()
                } else {
                    r is Ok && final(self).voices() == added(
                        old(self).voices(),
                        old(self).limit(),
                        ident@,
                        style_vectors,
                        vits2_bytes@,
                        None,
                    )
                },
            },
    {
        if self.find_index(ident).is_some() {
            return Ok(());
        }
        let room = self.has_room();
        let vits2: Option<S> = match model {
            Some(Err(message)) => {
                return Err(Error::ModelLoadError(message));
            },
            Some(Ok(session)) => if room {
                Some(session)
            } else {
                None
            },
            None => {
                if self.max_loaded_models.is_none() {
                    return Err(Error::ModelLoadError("No model was made".to_owned()));
                }
                None
            },
        };
        let bytes = if self.max_loaded_models.is_some() {
            Some(vits2_bytes)
        } else {
            None
        };
        let ghost before = self.voices();
        let entry = TTSModel { vits2, style_vectors, ident: TTSIdent::new(ident), bytes };
        proof {
            lemma_added_wf(before, self.limit(), ident@, style_vectors, vits2_bytes@, vits2);
            assert(voices_of(self.models@.push(entry)) =~= before.push(entry@));
        }
        self.models.push(entry);
        Ok(())
    }

    /// Loads a voice. Nothing happens where a voice of this name is loaded
    /// already. Else `load_model` makes the model from `vits2_bytes` if the
    /// budget allows one more resident voice, and is not called if not.
    pub fn load<F: FnOnce(&Vec<u8>) -> Result<S, String>>(
        &mut self,
        ident: &str,
        style_vectors: StyleTable,
        vits2_bytes: Vec<u8>,
        load_model: F,
    ) -> (r: Result<(), Error>)
        requires
            old(self).wf(),
            forall|bytes: &Vec<u8>| call_requires(load_model, (bytes,)),
        ensures
            final(self).wf(),
            final(self).limit() == old(self).limit(),
            loaded(
                load_model,
                old(self).voices(),
                old(self).limit(),
                ident@,
                style_vectors,
                vits2_bytes@,
                final(self).voices(),
                r,
            ),
    {
        if self.wants_model(ident) {
            let made = load_model(&vits2_bytes);
            self.load_made(ident, style_vectors, vits2_bytes, Some(made))
        } else {
            self.load_made(ident, style_vectors, vits2_bytes, None)
        }
    }

    /// Loads a voice from its archive. The archive is taken apart first;
    /// then nothing happens where a voice of this name is loaded already.
    /// Else `read_style` reads the style table from its member, and the
    /// voice is loaded with that table and the other member, as `load`
    /// does.
    pub fn load_sbv2file<D: FnOnce(&Vec<u8>) -> Result<Data, String>, F: FnOnce(&Vec<u8>) -> Result<
        S,
        String,
    >>(&mut self, ident: &str, sbv2_bytes: &Vec<u8>, read_style: D, load_model: F) -> (r: Result<
        (),
        Error,
    >)
        requires
            old(self).wf(),
            forall|bytes: &Vec<u8>| call_requires(read_style, (bytes,)),
            forall|bytes: &Vec<u8>| call_requires(load_model, (bytes,)),
        ensures
            final(self).wf(),
            final(self).limit() == old(self).limit(),
            match parsed(sbv2_bytes@) {
                None => r is Err && r->Err_0 is IoError && final(self).voices() == old(self).voices(),
                Some(Err(name)) => r matches Err(Error::ModelNotFoundError(s)) && s@ == name
                    && final(self).voices() == old(self).voices(),
                Some(Ok((style_bytes, model_bytes))) => if found(old(self).voices(), ident@)
                    is Some {
                    r is Ok && final(self).voices() == old(self).voices()
                } else {
                    loaded_with_style(
                        read_style,
                        load_model,
                        old(self).voices(),
                        old(self).limit(),
                        ident@,
                        style_bytes,
                        model_bytes,
                        final(self).voices(),
                        r,
                    )
                },
            },
    {
        let (style_bytes, vits2) = parse_sbv2file(sbv2_bytes)?;
        if self.contains(ident) {
            return Ok(());
        }
        let ghost before = self.voices();
        let ghost limit = self.limit();
        let read = read_style(&style_bytes);
        let ghost outcome = read;
        let data = match read {
            Ok(data) => data,
            Err(message) => {
                proof {
                    let failed = Err::<(), Error>(Error::ModelLoadError(message));
                    assert(call_ensures(read_style, (&style_bytes,), outcome));
                    assert(loaded_with_style(
                        read_style,
                        load_model,
                        before,
                        limit,
                        ident@,
                        style_bytes@,
                        vits2@,
                        before,
                        failed,
                    ));
                }
                return Err(Error::ModelLoadError(message));
            },
        };
        let style_vectors = match load_style(&data) {
            Ok(table) => table,
            Err(e) => {
                proof {
                    assert(call_ensures(read_style, (&style_bytes,), outcome));
                    assert(loaded_with_style(
                        read_style,
                        load_model,
                        before,
                        limit,
                        ident@,
                        style_bytes@,
                        vits2@,
                        before,
                        Err::<(), Error>(e),
                    ));
                }
                return Err(e);
            },
        };
        let ghost table = style_vectors;
        let ghost model_bytes = vits2@;
        let r = self.load(ident, style_vectors, vits2, load_model);
        proof {
            assert(call_ensures(read_style, (&style_bytes,), outcome));
            assert(describes(data, table));
            assert(loaded(
                load_model,
                before,
                limit,
                ident@,
                table,
                model_bytes,
                self.voices(),
                r,
            ));
            assert(loaded_with_style(
                read_style,
                load_model,
                before,
                limit,
                ident@,
                style_bytes@,
                model_bytes,
                self.voices(),
                r,
            ));
        }
        r
    }

    /// Unloads a voice. Says whether there was one of this name.
    pub fn unload(&mut self, ident: &str) -> (was_loaded: bool)
        requires
            old(self).wf(),
        ensures
            final(self).wf(),
            final(self).limit() == old(self).limit(),
            was_loaded == found(old(self).voices(), ident@) is Some,
            final(self).voices() == removed(old(self).voices(), ident@),
    {
        let ghost before = self.voices();
        proof {
            lemma_removed_wf(before, self.limit(), ident@);
        }
        match self.find_index(ident) {
            Some(i) => {
                let _ = self.models.remove(i);
                assert(voices_of(self.models@) =~= before.remove(i as int));
                true
            },
            None => false,
        }
    }

    /// What the voice of this name needs before it can speak.
    pub fn residency(&self, ident: &str) -> (r: Result<Residency, Error>)
        ensures
            match found(self.voices(), ident@) {
                None => r matches Err(Error::ModelNotFoundError(name)) && name@ == ident@,
                Some(i) => match (self.voices()[i].session, self.voices()[i].bytes) {
                    (Some(_), _) => r matches Ok(Residency::Resident),
                    (None, Some(bytes)) => r matches Ok(Residency::NeedsModel(b)) && b@ == bytes,
                    (None, None) => r matches Err(Error::ModelNotFoundError(name)) && name@
                        == ident@,
                },
            },
    {
        match self.find_index(ident) {
            None => Err(Error::ModelNotFoundError(ident.to_owned())),
            Some(i) => {
                assert(self.voices()[i as int] == self.models@[i as int]@);
                let model = &self.models[i];
                if model.vits2.is_some() {
                    Ok(Residency::Resident)
                } else {
                    match &model.bytes {
                        Some(bytes) => Ok(Residency::NeedsModel(copy_of(bytes))),
                        None => Err(Error::ModelNotFoundError(ident.to_owned())),
                    }
                }
            },
        }
    }

    /// Gives the voice of this name, which is loaded and not resident, the
    /// model that was made for it. Where the budget does not allow one
    /// more resident voice, the resident voice that was loaded first gives
    /// up its model before; it stays loaded. A model that failed to be
    /// made leaves the holder as it was, and so does a limit of zero, which
    /// no voice can be resident under.
    pub fn install(&mut self, ident: &str, made: Result<S, String>) -> (r: Result<(), Error>)
        requires
            old(self).wf(),
        ensures
            final(self).wf(),
            final(self).limit() == old(self).limit(),
            match found(old(self).voices(), ident@) {
                None => r matches Err(Error::ModelNotFoundError(name)) && name@ == ident@
                    && final(self).voices() == old(self).voices(),
                Some(i) => if old(self).voices()[i].session is Some {
                    r is Ok && final(self).voices() == old(self).voices()
                } else {
                    match made {
                        Err(message) => r matches Err(Error::ModelLoadError(m)) && m@ == message@
                            && final(self).voices() == old(self).voices(),
                        Ok(session) => if old(self).limit() == Some(0usize) {
                            r is Err && r->Err_0 is ModelLoadError && final(self).voices() == old(self).voices()
                        } else {
                            r is Ok && final(self).voices() == installed(
                                old(self).voices(),
                                old(self).limit(),
                                i,
                                session,
                            )
                        },
                    }
                },
            },
    {
        let ghost before = self.voices();
        let ghost limit = self.limit();
        let i = match self.find_index(ident) {
            None => {
                return Err(Error::ModelNotFoundError(ident.to_owned()));
            },
            Some(i) => i,
        };
        assert(before[i as int] == self.models@[i as int]@);
        if self.models[i].vits2.is_some() {
            return Ok(());
        }
        let session = match made {
            Err(message) => {
                return Err(Error::ModelLoadError(message));
            },
            Ok(session) => session,
        };
        match self.max_loaded_models {
            Some(max) => {
                if max == 0 {
                    return Err(Error::ModelLoadError("No voice may be resident".to_owned()));
                }
            },
            None => {},
        }
        proof {
            lemma_installed_wf(before, limit, i as int, session);
            lemma_first_resident_bounds(before, before.len() as int);
        }
        if !self.has_room() {
            let e = self.first_resident_index();
            let victim = self.models.remove(e);
            let TTSModel { vits2: _, style_vectors, ident: name, bytes } = victim;
            let cleared = TTSModel { vits2: None, style_vectors, ident: name, bytes };
            self.models.insert(e, cleared);
            assert(voices_of(self.models@) =~= evicted(before));
        }
        let ghost room = voices_of(self.models@);
        let entry = self.models.remove(i);
        let TTSModel { vits2: _, style_vectors, ident: name, bytes } = entry;
        let resident = TTSModel { vits2: Some(session), style_vectors, ident: name, bytes };
        self.models.insert(i, resident);
        assert(voices_of(self.models@) =~= room.update(
            i as int,
            Voice { session: Some(session), ..room[i as int] },
        ));
        Ok(())
    }

    fn first_resident_index(&self) -> (e: usize)
        requires
            resident_count(self.voices()) > 0,
        ensures
            first_resident(self.voices()) == Some(e as int),
            e < self.models.len(),
    {
        let ghost voices = self.voices();
        proof {
            lemma_first_resident_bounds(voices, voices.len() as int);
        }
        let mut e: usize = 0;
        while e < self.models.len() && self.models[e].vits2.is_none()
            invariant
                e <= self.models.len(),
                voices == voices_of(self.models@),
                first_resident_upto(voices, e as int) is None,
                first_resident(voices) is Some,
            decreases self.models.len() - e,
        {
            assert(voices[e as int] == self.models@[e as int]@);
            e += 1;
        }
        proof {
            if e < self.models.len() {
                assert(voices[e as int] == self.models@[e as int]@);
                lemma_first_resident_stays(voices, e + 1, voices.len() as int);
            }
        }
        e
    }

    /// Sees to it that the voice of this name is resident. Where it is not,
    /// `load_model` makes its model from the bytes that were kept, and the
    /// voice takes the place of the resident voice that was loaded first
    /// where the budget allows no more.
    pub fn find_and_load_model<F: FnOnce(&Vec<u8>) -> Result<S, String>>(
        &mut self,
        ident: &str,
        load_model: F,
    ) -> (r: Result<bool, Error>)
        requires
            old(self).wf(),
            forall|bytes: &Vec<u8>| call_requires(load_model, (bytes,)),
        ensures
            final(self).wf(),
            final(self).limit() == old(self).limit(),
            made_resident(
                load_model,
                old(self).voices(),
                old(self).limit(),
                ident@,
                final(self).voices(),
                r,
            ),
            r is Ok ==> is_resident_in(final(self).voices(), ident@),
    {
        let ghost before = self.voices();
        proof {
            lemma_found_bounds(before, ident@, before.len() as int);
        }
        match self.residency(ident) {
            Err(e) => Err(e),
            Ok(Residency::Resident) => Ok(true),
            Ok(Residency::NeedsModel(bytes)) => {
                let made = load_model(&bytes);
                let ghost outcome = made;
                proof {
                    let i = found(before, ident@)->0;
                    match outcome {
                        Ok(session) => {
                            if self.limit() != Some(0usize) {
                                lemma_installed_wf(before, self.limit(), i, session);
                                lemma_found_same_names(
                                    before,
                                    installed(before, self.limit(), i, session),
                                    ident@,
                                    before.len() as int,
                                );
                            }
                        },
                        Err(_) => {},
                    }
                }
                match self.install(ident, made) {
                    Ok(_) => Ok(true),
                    Err(e) => Err(e),
                }
            },
        }
    }

    /// Hands the model of the voice of this name to `run`, if the voice is
    /// loaded and resident.
    pub fn run_resident<G: FnOnce(&S) -> Result<A, String>, A>(&self, ident: &str, run: G) -> (r:
        Result<A, Error>)
        requires
            forall|session: &S| call_requires(run, (session,)),
        ensures
            ran(run, self.voices(), ident@, r),
    {
        match self.find_index(ident) {
            None => Err(Error::ModelNotFoundError(ident.to_owned())),
            Some(i) => {
                assert(self.voices()[i as int] == self.models@[i as int]@);
                match &self.models[i].vits2 {
                    None => Err(Error::ModelNotFoundError(ident.to_owned())),
                    Some(session) => match run(session) {
                        Ok(audio) => Ok(audio),
                        Err(message) => Err(Error::InferenceError(message)),
                    },
                }
            },
        }
    }

    /// Speaks with the voice of this name: sees to it that the voice is
    /// resident, as `find_and_load_model` does, and, where that went well,
    /// hands its model to `run`, as `run_resident` does.
    pub fn synthesize<F: FnOnce(&Vec<u8>) -> Result<S, String>, G: FnOnce(&S) -> Result<A, String>, A>(
        &mut self,
        ident: &str,
        load_model: F,
        run: G,
    ) -> (r: Result<A, Error>)
        requires
            old(self).wf(),
            forall|bytes: &Vec<u8>| call_requires(load_model, (bytes,)),
            forall|session: &S| call_requires(run, (session,)),
        ensures
            final(self).wf(),
            final(self).limit() == old(self).limit(),
            exists|made: Result<bool, Error>| #[trigger]
                made_resident(
                    load_model,
                    old(self).voices(),
                    old(self).limit(),
                    ident@,
                    final(self).voices(),
                    made,
                ) && match made {
                    Err(e) => r == Err::<A, Error>(e),
                    Ok(_) => ran(run, final(self).voices(), ident@, r),
                },
    {
        match self.find_and_load_model(ident, load_model) {
            Err(e) => Err(e),
            Ok(_) => self.run_resident(ident, run),
        }
    }

    /// Speaks `text` with the voice of this name, which is resident, and
    /// the style vector `style_vector`: `speak` is called on each segment
    /// of the text in turn, with the model of the voice and the style
    /// vector, and the first error ends it. The pieces are the audio of
    /// each segment, with silence after each segment that has a gap after
    /// it. Nothing is spoken where the voice is not resident, and a text
    /// without any segment is refused.
    #[verifier::loop_isolation(false)]
    pub fn speak_segments<G: Fn(&S, &String, &Vec<u32>) -> Result<A, Error>, A>(
        &self,
        ident: &str,
        text: &str,
        split_sentences: bool,
        style_vector: &Vec<u32>,
        speak: G,
    ) -> (r: Result<Vec<Piece<A>>, Error>)
        requires
            forall|session: &S, segment: &String, vector: &Vec<u32>|
                call_requires(speak, (session, segment, vector)),
        ensures
            spoken_with(
                speak,
                self.voices(),
                ident@,
                *style_vector,
                segments(text@, split_sentences),
                r,
            ),
    {
        let i = match self.find_index(ident) {
            Some(i) => i,
            None => {
                return Err(Error::ModelNotFoundError(ident.to_owned()));
            },
        };
        assert(self.voices()[i as int] == self.models@[i as int]@);
        let session = match &self.models[i].vits2 {
            Some(session) => session,
            None => {
                return Err(Error::ModelNotFoundError(ident.to_owned()));
            },
        };
        let parts = split_segments(text, split_sentences);
        if parts.len() == 0 {
            return Err(Error::ValueError("No text to speak".to_owned()));
        }
        let mut pieces: Vec<Piece<A>> = Vec::new();
        let mut k: usize = 0;
        while k < parts.len()
            invariant
                k <= parts.len(),
                forall|session: &S, segment: &String, vector: &Vec<u32>|
                    call_requires(speak, (session, segment, vector)),
                spoken_upto(speak, *session, *style_vector, parts@, pieces@, k as int),
            decreases parts.len() - k,
        {
            let ghost before = pieces@;
            let audio = match speak(session, &parts[k].text, style_vector) {
                Ok(audio) => audio,
                Err(e) => {
                    proof {
                        assert(failed_at(speak, *session, *style_vector, parts@, k as int, e));
                        assert(told(
                            speak,
                            *session,
                            *style_vector,
                            parts@,
                            Err::<Vec<Piece<A>>, Error>(e),
                        ));
                    }
                    return Err(e);
                },
            };
            pieces.push(Piece::Audio(audio));
            if parts[k].gap_after {
                pieces.push(Piece::Silence);
                assert(pieces@.take(pieces@.len() - 2) =~= before);
            } else {
                assert(pieces@.take(pieces@.len() - 1) =~= before);
            }
            k += 1;
        }
        proof {
            assert(told(speak, *session, *style_vector, parts@, Ok::<Vec<Piece<A>>, Error>(pieces)));
        }
        Ok(pieces)
    }

    /// Speaks `text` with the voice of this name in the style `style_id` at
    /// the weight `weight`: sees to it that the voice is resident, as
    /// `find_and_load_model` does, takes the style vector, as
    /// `get_style_vector` does, and, where both went well, speaks the
    /// segments of the text, as `speak_segments` does.
    pub fn easy_synthesize<
        W,
        F: FnOnce(&Vec<u8>) -> Result<S, String>,
        B: FnOnce(&Vec<u32>, &Vec<u32>, W) -> Vec<u32>,
        G: Fn(&S, &String, &Vec<u32>) -> Result<A, Error>,
        A,
    >(
        &mut self,
        ident: &str,
        text: &str,
        style_id: i32,
        weight: W,
        split_sentences: bool,
        load_model: F,
        blend: B,
        speak: G,
    ) -> (r: Result<Vec<Piece<A>>, Error>)
        requires
            old(self).wf(),
            forall|bytes: &Vec<u8>| call_requires(load_model, (bytes,)),
            forall|mean: &Vec<u32>, style: &Vec<u32>, w: W| call_requires(blend, (mean, style, w)),
            forall|session: &S, segment: &String, vector: &Vec<u32>|
                call_requires(speak, (session, segment, vector)),
        ensures
            final(self).wf(),
            final(self).limit() == old(self).limit(),
            exists|made: Result<bool, Error>| #[trigger]
                made_resident(
                    load_model,
                    old(self).voices(),
                    old(self).limit(),
                    ident@,
                    final(self).voices(),
                    made,
                ) && match made {
                    Err(e) => r == Err::<Vec<Piece<A>>, Error>(e),
                    Ok(_) => spoken(
                        blend,
                        speak,
                        final(self).voices(),
                        ident@,
                        style_id,
                        weight,
                        segments(text@, split_sentences),
                        r,
                    ),
                },
    {
        match self.find_and_load_model(ident, load_model) {
            Err(e) => Err(e),
            Ok(_) => {
                let vector = self.get_style_vector(ident, style_id, weight, blend);
                assert(style_vector_in(blend, self.voices(), ident@, style_id, weight, vector));
                match vector {
                    Err(e) => Err(e),
                    Ok(v) => self.speak_segments(ident, text, split_sentences, &v, speak),
                }
            },
        }
    }

    /// The style vector of the style `style_id` of the voice of this name
    /// at the weight `weight`, which `blend` computes from the neutral row
    /// and the row of the style. For the neutral style nothing is
    /// computed: its vector is the neutral row itself, whatever the weight
    /// is.
    pub fn get_style_vector<W, B: FnOnce(&Vec<u32>, &Vec<u32>, W) -> Vec<u32>>(
        &self,
        ident: &str,
        style_id: i32,
        weight: W,
        blend: B,
    ) -> (r: Result<Vec<u32>, Error>)
        requires
            forall|mean: &Vec<u32>, style: &Vec<u32>, w: W| call_requires(blend, (mean, style, w)),
        ensures
            style_vector_in(blend, self.voices(), ident@, style_id, weight, r),
    {
        match self.find_index(ident) {
            None => Err(Error::ModelNotFoundError(ident.to_owned())),
            Some(i) => {
                assert(self.voices()[i as int] == self.models@[i as int]@);
                get_style_vector(&self.models[i].style_vectors, style_id, weight, blend)
            },
        }
    }

    /// The neutral row and the row of style `style_id` of the voice of
    /// this name.
    pub fn style_rows(&self, ident: &str, style_id: i32) -> (r: Result<(Vec<u32>, Vec<u32>), Error>)
        ensures
            match found(self.voices(), ident@) {
                None => r matches Err(Error::ModelNotFoundError(name)) && name@ == ident@,
                Some(i) => {
                    let table = self.voices()[i].style;
                    match r {
                        Ok((mean, style)) => 0 <= style_id < table.rows() && mean@ == table.row(0)
                            && style@ == table.row(style_id as int),
                        Err(e) => !(0 <= style_id < table.rows()) && e is ValueError,
                    }
                },
            },
    {
        match self.find_index(ident) {
            None => Err(Error::ModelNotFoundError(ident.to_owned())),
            Some(i) => {
                assert(self.voices()[i as int] == self.models@[i as int]@);
                self.models[i].style_vectors.style_rows(style_id)
            },
        }
    }
}

} // verus!
