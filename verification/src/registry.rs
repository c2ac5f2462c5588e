use vstd::prelude::*;

use crate::error::EngineError;
use crate::ident::TTSIdent;

verus! {

/// One registered voice model and the identifier it was loaded under.
pub struct TTSModel<M> {
    pub model: M,
    pub ident: TTSIdent,
}

/// The voice models loaded so far, each under its own identifier.
pub struct TTSModelHolder<M> {
    models: Vec<TTSModel<M>>,
}

/// `entries` holds an entry under `id`.
pub open spec fn has_ident<M>(entries: Seq<(Seq<char>, M)>, id: Seq<char>) -> bool {
    exists|i: int| 0 <= i < entries.len() && #[trigger] entries[i].0 == id
}

/// No identifier occurs twice in `entries`.
pub open spec fn unique_idents<M>(entries: Seq<(Seq<char>, M)>) -> bool {
    forall|i: int, j: int|
        0 <= i < entries.len() && 0 <= j < entries.len() && i != j ==> #[trigger] entries[i].0
            != #[trigger] entries[j].0
}

/// The position of the entry under `id` (meaningful when `has_ident(entries, id)`).
pub open spec fn index_of<M>(entries: Seq<(Seq<char>, M)>, id: Seq<char>) -> int {
    choose|i: int| 0 <= i < entries.len() && #[trigger] entries[i].0 == id
}

/// The model registered under `id` (meaningful when `has_ident(entries, id)`).
pub open spec fn model_of<M>(entries: Seq<(Seq<char>, M)>, id: Seq<char>) -> M {
    entries[index_of(entries, id)].1
}

/// Registering a model under a new identifier keeps identifiers unique, and a
/// later lookup of that identifier finds exactly the model just registered,
/// while every other identifier keeps its model.
pub proof fn lemma_load_then_find<M>(entries: Seq<(Seq<char>, M)>, id: Seq<char>, m: M)
    requires
        unique_idents(entries),
        !has_ident(entries, id),
    ensures
        unique_idents(entries.push((id, m))),
        has_ident(entries.push((id, m)), id),
        model_of(entries.push((id, m)), id) == m,
        forall|other: Seq<char>|
            other != id && has_ident(entries, other) ==> has_ident(entries.push((id, m)), other)
                && model_of(entries.push((id, m)), other) == model_of(entries, other),
{
    let p = entries.push((id, m));
    let n = entries.len() as int;
    assert forall|i: int, j: int|
        0 <= i < p.len() && 0 <= j < p.len() && i != j implies #[trigger] p[i].0
        != #[trigger] p[j].0 by {
        if i < n && j < n {
            assert(p[i] == entries[i] && p[j] == entries[j]);
        } else if i < n {
            assert(p[i] == entries[i]);
        } else {
            assert(p[j] == entries[j]);
        }
    }
    assert(p[n].0 == id);
    let k = index_of(p, id);
    assert(0 <= k < p.len() && p[k].0 == id);
    if k != n {
        assert(p[k] == entries[k]);
    }
    assert forall|other: Seq<char>|
        other != id && has_ident(entries, other) implies has_ident(p, other) && model_of(p, other)
        == model_of(entries, other) by {
        let a = index_of(entries, other);
        assert(0 <= a < entries.len() && entries[a].0 == other);
        assert(p[a] == entries[a]);
        let b = index_of(p, other);
        assert(0 <= b < p.len() && p[b].0 == other);
        if b == n {
            assert(false);
        }
        assert(p[b] == entries[b]);
        if a != b {
            assert(entries[a].0 == entries[b].0);
        }
    }
}

impl<M> TTSModelHolder<M> {
    /// The registered models in load order, each with its identifier's text.
    pub closed spec fn entries(&self) -> Seq<(Seq<char>, M)> {
        self.models@.map_values(|m: TTSModel<M>| (m.ident@, m.model))
    }

    /// Well-formedness: identifiers are unique.
    pub closed spec fn wf(&self) -> bool {
        forall|i: int, j: int|
            0 <= i < self.models@.len() && 0 <= j < self.models@.len() && i != j
                ==> #[trigger] self.models@[i].ident@ != #[trigger] self.models@[j].ident@
    }

    /// A well-formed holder's entries have unique identifiers.
    pub proof fn lemma_wf_unique(&self)
        requires
            self.wf(),
        ensures
            unique_idents(self.entries()),
    {
        let e = self.entries();
        assert forall|i: int, j: int|
            0 <= i < e.len() && 0 <= j < e.len() && i != j implies #[trigger] e[i].0
            != #[trigger] e[j].0 by {
            assert(e[i].0 == self.models@[i].ident@);
            assert(e[j].0 == self.models@[j].ident@);
        }
    }

    /// An empty holder.
    pub fn new() -> (holder: Self)
        ensures
            holder.wf(),
            holder.entries() == Seq::<(Seq<char>, M)>::empty(),
    {
        let holder = TTSModelHolder { models: Vec::new() };
        assert(holder.entries() =~= Seq::<(Seq<char>, M)>::empty());
        holder
    }

    /// The number of registered models.
    pub fn len(&self) -> (n: usize)
        ensures
            n == self.entries().len(),
    {
        self.models.len()
    }

    /// The position of the model registered under `ident`, if any.
    pub fn position(&self, ident: &TTSIdent) -> (r: Option<usize>)
        requires
            self.wf(),
        ensures
            match r {
                Some(i) => has_ident(self.entries(), ident@) && i == index_of(
                    self.entries(),
                    ident@,
                ),
                None => !has_ident(self.entries(), ident@),
            },
    {
        let ghost e = self.entries();
        proof {
            self.lemma_wf_unique();
        }
        let n = self.models.len();
        let mut i: usize = 0;
        while i < n
            invariant
                n == self.models@.len(),
                e == self.entries(),
                e.len() == n,
                unique_idents(e),
                0 <= i <= n,
                forall|k: int| 0 <= k < i ==> #[trigger] e[k].0 != ident@,
            decreases n - i,
        {
            if self.models[i].ident == *ident {
                assert(e[i as int].0 == ident@);
                let ghost j = index_of(e, ident@);
                assert(0 <= j < e.len() && e[j].0 == ident@);
                return Some(i);
            }
            i = i + 1;
        }
        assert forall|k: int| 0 <= k < e.len() implies #[trigger] e[k].0 != ident@ by {}
        None
    }

    /// The model registered under `ident`, for use and update in place.
    pub fn find_model(&mut self, ident: &TTSIdent) -> (r: Result<&mut M, EngineError>)
        requires
            old(self).wf(),
        ensures
            final(self).wf(),
            match r {
                Ok(m) => {
                    &&& has_ident(old(self).entries(), ident@)
                    &&& *m == model_of(old(self).entries(), ident@)
                    &&& final(self).entries() == old(self).entries().update(
                        index_of(old(self).entries(), ident@),
                        (ident@, *final(m)),
                    )
                },
                Err(e) => {
                    &&& !has_ident(old(self).entries(), ident@)
                    &&& final(self).entries() == old(self).entries()
                    &&& e matches EngineError::ModelNotFound(name) && name@ == ident@
                },
            },
    {
        match self.position(ident) {
            Some(i) => {
                let entry = &mut self.models[i];
                Ok(&mut entry.model)
            },
            None => Err(EngineError::ModelNotFound(ident.to_string())),
        }
    }

    /// Registers a model under `ident` unless one is already registered there.
    ///
    /// `build` makes the model; it is called only when `ident` is new, and
    /// when it fails its error is returned and nothing is registered.
    pub fn load<E, F: FnOnce() -> Result<M, E>>(&mut self, ident: TTSIdent, build: F) -> (r: Result<
        (),
        E,
    >)
        requires
            old(self).wf(),
            call_requires(build, ()),
        ensures
            final(self).wf(),
            has_ident(old(self).entries(), ident@) ==> r is Ok && final(self).entries() == old(
                self,
            ).entries(),
            !has_ident(old(self).entries(), ident@) ==> match r {
                Ok(_) => exists|m: M|
                    #![trigger call_ensures(build, (), Ok::<M, E>(m))]
                    call_ensures(build, (), Ok::<M, E>(m)) && final(self).entries() == old(
                        self,
                    ).entries().push((ident@, m)),
                Err(e) => call_ensures(build, (), Err::<M, E>(e)) && final(self).entries()
                    == old(self).entries(),
            },
    {
        if self.position(&ident).is_some() {
            return Ok(());
        }
        let built = build();
        match built {
            Ok(model) => {
                let ghost old_models = self.models@;
                let ghost m = model;
                self.models.push(TTSModel { model, ident });
                assert(self.entries() =~= old(self).entries().push((ident@, m)));
                assert forall|i: int, j: int|
                    0 <= i < self.models@.len() && 0 <= j < self.models@.len() && i != j
                        implies #[trigger] self.models@[i].ident@
                    != #[trigger] self.models@[j].ident@ by {
                    if i < old_models.len() && j < old_models.len() {
                        assert(self.models@[i] == old_models[i]);
                        assert(self.models@[j] == old_models[j]);
                    } else if i < old_models.len() {
                        assert(old(self).entries()[i].0 == self.models@[i].ident@);
                    } else {
                        assert(old(self).entries()[j].0 == self.models@[j].ident@);
                    }
                }
                Ok(())
            },
            Err(e) => Err(e),
        }
    }
}

} // verus!
