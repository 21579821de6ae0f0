use vstd::prelude::*;
use crate::types::{Type, TypeM, view_type, dup_type};

verus! {

/// One environment frame: a mapping from identifier to value, and the
/// handle of the enclosing frame, if any. Frames live in an arena (a
/// vector of frames indexed by handle); a closure stores the handle of
/// its defining frame, so frames stay alive as long as the arena does.
#[derive(Debug)]
pub struct Scope {
    bindings: Vec<(String, Type)>,
    parent: Option<usize>,
}

/// Mathematical model of one frame: the binding map and the parent handle.
pub struct ScopeM {
    pub bindings: Map<Seq<char>, TypeM>,
    pub parent: Option<int>,
}

pub open spec fn view_binding_entries(b: Seq<(String, Type)>) -> Seq<(Seq<char>, TypeM)> {
    Seq::new(b.len(), |i: int| (b[i].0@, view_type(b[i].1)))
}

/// The map an association list denotes; a later entry for a key overrides
/// an earlier one.
pub open spec fn map_of(s: Seq<(Seq<char>, TypeM)>) -> Map<Seq<char>, TypeM>
    decreases s,
{
    if s.len() == 0 {
        Map::empty()
    } else {
        map_of(s.drop_last()).insert(s.last().0, s.last().1)
    }
}

/// The latest entry for a key in an association list, if any.
pub open spec fn assoc_get(s: Seq<(Seq<char>, TypeM)>, k: Seq<char>) -> Option<TypeM>
    decreases s,
{
    if s.len() == 0 {
        None
    } else if s.last().0 == k {
        Some(s.last().1)
    } else {
        assoc_get(s.drop_last(), k)
    }
}

pub proof fn lemma_assoc_get_map(s: Seq<(Seq<char>, TypeM)>, k: Seq<char>)
    ensures
        assoc_get(s, k) == if map_of(s).contains_key(k) {
            Some(map_of(s)[k])
        } else {
            None::<TypeM>
        },
    decreases s,
{
    if s.len() > 0 {
        lemma_assoc_get_map(s.drop_last(), k);
    }
}

pub closed spec fn view_scope(s: Scope) -> ScopeM {
    ScopeM {
        bindings: map_of(view_binding_entries(s.bindings@)),
        parent: match s.parent {
            Some(p) => Some(p as int),
            None => None,
        },
    }
}

impl View for Scope {
    type V = ScopeM;

    open spec fn view(&self) -> ScopeM {
        view_scope(*self)
    }
}

pub open spec fn view_scopes(v: Seq<Scope>) -> Seq<ScopeM> {
    Seq::new(v.len(), |i: int| view_scope(v[i]))
}

/// A well-formed arena: every frame's parent handle points at an earlier
/// frame, so parent chains always end at a root.
pub open spec fn wf_arena(ar: Seq<ScopeM>) -> bool {
    forall|i: int|
        0 <= i < ar.len() ==> match (#[trigger] ar[i]).parent {
            Some(p) => 0 <= p < i,
            None => true,
        }
}

/// The value the frame at a handle resolves a name to: its own binding if
/// it has one, else the nearest binding along the parent chain. The arm
/// that stops at a parent handle that failed to shrink is never reached in
/// a well-formed arena; it keeps the recursion well-founded.
pub open spec fn sp_lookup(ar: Seq<ScopeM>, h: int, id: Seq<char>) -> Option<TypeM>
    decreases h + 1,
{
    if !(0 <= h < ar.len()) {
        None
    } else {
        let sc = ar[h];
        if sc.bindings.contains_key(id) {
            Some(sc.bindings[id])
        } else {
            match sc.parent {
                Some(p) => if 0 <= p < h {
                    sp_lookup(ar, p, id)
                } else {
                    None
                },
                None => None,
            }
        }
    }
}

fn str_eq(a: &str, b: &str) -> (r: bool)
    ensures
        r == (a@ == b@),
{
    let n = a.unicode_len();
    if n != b.unicode_len() {
        proof {
            assert(a@.len() != b@.len());
        }
        return false;
    }
    let mut i: usize = 0;
    while i < n
        invariant
            n == a@.len(),
            n == b@.len(),
            0 <= i <= n,
            forall|k: int| 0 <= k < i ==> a@[k] == b@[k],
        decreases n - i,
    {
        if a.get_char(i) != b.get_char(i) {
            return false;
        }
        i = i + 1;
    }
    proof {
        assert(a@ =~= b@);
    }
    true
}

/// The latest local binding for a name, copied out.
#[verifier::loop_isolation(false)]
fn get_local(bindings: &Vec<(String, Type)>, id: &str) -> (r: Option<Type>)
    ensures
        match (r, assoc_get(view_binding_entries(bindings@), id@)) {
            (Some(t), Some(m)) => view_type(t) == m,
            (None, None) => true,
            _ => false,
        },
{
    let n = bindings.len();
    proof {
        assert(view_binding_entries(bindings@).subrange(0, n as int) =~= view_binding_entries(
            bindings@,
        ));
    }
    let mut i: usize = n;
    while i > 0
        invariant
            0 <= i <= n,
            n == bindings@.len(),
            assoc_get(view_binding_entries(bindings@), id@) == assoc_get(
                view_binding_entries(bindings@).subrange(0, i as int),
                id@,
            ),
        decreases i,
    {
        let ghost entries = view_binding_entries(bindings@);
        proof {
            assert(entries.subrange(0, i as int).last() == entries[i - 1]);
            assert(entries.subrange(0, i as int).drop_last() =~= entries.subrange(0, i as int - 1));
        }
        if str_eq(bindings[i - 1].0.as_str(), id) {
            return Some(dup_type(&bindings[i - 1].1));
        }
        i = i - 1;
    }
    proof {
        assert(view_binding_entries(bindings@).subrange(0, 0) =~= Seq::<(Seq<char>, TypeM)>::empty());
    }
    None
}

impl Scope {
    /// The root frame: no bindings, no parent.
    pub fn global() -> (s: Scope)
        ensures
            s@.bindings == Map::<Seq<char>, TypeM>::empty(),
            s@.parent is None,
    {
        proof {
            assert(view_binding_entries(Seq::<(String, Type)>::empty()) =~= Seq::<(
                Seq<char>,
                TypeM,
            )>::empty());
        }
        Scope { bindings: Vec::new(), parent: None }
    }

    /// A child frame chained to the frame at the given handle.
    pub fn new(parent: usize) -> (s: Scope)
        ensures
            s@.bindings == Map::<Seq<char>, TypeM>::empty(),
            s@.parent == Some(parent as int),
    {
        proof {
            assert(view_binding_entries(Seq::<(String, Type)>::empty()) =~= Seq::<(
                Seq<char>,
                TypeM,
            )>::empty());
        }
        Scope { bindings: Vec::new(), parent: Some(parent) }
    }

    /// Inserts or overwrites a binding in this frame alone and hands the
    /// bound value back. No parent frame is touched.
    pub fn bind(&mut self, id: String, value: Type) -> (r: Type)
        ensures
            final(self)@.bindings == old(self)@.bindings.insert(id@, view_type(value)),
            final(self)@.parent == old(self)@.parent,
            view_type(r) == view_type(value),
    {
        let stored = dup_type(&value);
        let ghost entries = view_binding_entries(self.bindings@);
        self.bindings.push((id, stored));
        proof {
            assert(view_binding_entries(self.bindings@) =~= entries.push(
                (id@, view_type(stored)),
            ));
            assert(view_binding_entries(self.bindings@).drop_last() =~= entries);
        }
        value
    }

    /// Resolves a name from the frame at `handle`: the local binding
    /// first, else the nearest binding along the parent chain; absent if
    /// no enclosing frame binds it.
    #[verifier::loop_isolation(false)]
    pub fn get(scopes: &Vec<Scope>, handle: usize, id: &str) -> (r: Option<Type>)
        requires
            wf_arena(view_scopes(scopes@)),
        ensures
            match (r, sp_lookup(view_scopes(scopes@), handle as int, id@)) {
                (Some(t), Some(m)) => view_type(t) == m,
                (None, None) => true,
                _ => false,
            },
    {
        let ghost ar = view_scopes(scopes@);
        let mut h = handle;
        loop
            invariant
                sp_lookup(ar, handle as int, id@) == sp_lookup(ar, h as int, id@),
            decreases h + 1,
        {
            if h >= scopes.len() {
                return None;
            }
            let sc = &scopes[h];
            proof {
                assert(ar[h as int] == view_scope(scopes@[h as int]));
                lemma_assoc_get_map(view_binding_entries(sc.bindings@), id@);
            }
            match get_local(&sc.bindings, id) {
                Some(t) => {
                    return Some(t);
                },
                None => {},
            }
            match sc.parent {
                Some(p) => {
                    h = p;
                },
                None => {
                    return None;
                },
            }
        }
    }
}

} // verus!
