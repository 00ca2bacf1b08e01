//! The scope stack: the names that are visible at a point of a program.
//!
//! A stack holds layers, the outermost first. A name is bound in a layer at
//! most once; a binding in an inner layer shadows those of the same name
//! further out. The bindings are kept in the order in which they were made,
//! and a layered hash map beside them finds the innermost binding of a name
//! without a search.

use vstd::prelude::*;
use quickscope::ScopeMap;
use std::collections::hash_map::RandomState;
use std::hash::BuildHasher;
use std::rc::Rc;

verus! {

/// `quickscope::ScopeMap`: a hash map in layers. It starts with a base
/// layer; layers are pushed on top and popped again, and a key is looked up
/// from the top layer down.
#[verifier::external_type_specification]
#[verifier::external_body]
#[verifier::reject_recursive_types(K)]
#[verifier::reject_recursive_types(V)]
#[verifier::reject_recursive_types(S)]
pub struct ExScopeMap<K, V, S: BuildHasher>(ScopeMap<K, V, S>);

/// What a layered map of positions holds: one map for each of its layers,
/// the base layer first, from the keys defined in that layer to their values.
pub uninterp spec fn scope_layers(m: ScopeMap<String, (usize, usize), RandomState>) -> Seq<
    Map<Seq<char>, (usize, usize)>,
>;

/// The value that the innermost layer defining `key` gives it, if any does.
pub open spec fn innermost(layers: Seq<Map<Seq<char>, (usize, usize)>>, key: Seq<char>) -> Option<
    (usize, usize),
>
    decreases layers.len(),
{
    if layers.len() == 0 {
        None
    } else if layers.last().contains_key(key) {
        Some(layers.last()[key])
    } else {
        innermost(layers.drop_last(), key)
    }
}

/// `ScopeMap::new`: a map with its base layer and nothing defined.
#[verifier::external_body]
fn index_new() -> (m: ScopeMap<String, (usize, usize), RandomState>)
    ensures
        scope_layers(m) == seq![Map::<Seq<char>, (usize, usize)>::empty()],
{
    ScopeMap::new()
}

/// `ScopeMap::push_layer`: adds an empty layer on top of the others.
#[verifier::external_body]
fn index_push_layer(m: &mut ScopeMap<String, (usize, usize), RandomState>)
    ensures
        scope_layers(*final(m)) == scope_layers(*old(m)).push(
            Map::<Seq<char>, (usize, usize)>::empty(),
        ),
{
    m.push_layer()
}

/// `ScopeMap::pop_layer`: removes the top layer with all that it defines and
/// says `true`, unless only the base layer is left: then nothing changes and
/// it says `false`.
#[verifier::external_body]
fn index_pop_layer(m: &mut ScopeMap<String, (usize, usize), RandomState>) -> (r: bool)
    ensures
        r == (scope_layers(*old(m)).len() > 1),
        r ==> scope_layers(*final(m)) == scope_layers(*old(m)).drop_last(),
        !r ==> scope_layers(*final(m)) == scope_layers(*old(m)),
{
    m.pop_layer()
}

/// `ScopeMap::define`: gives `key` the value `value` in the top layer, in
/// place of the value that the top layer gave it before, if it gave one.
/// The other layers stay as they are.
#[verifier::external_body]
fn index_define(
    m: &mut ScopeMap<String, (usize, usize), RandomState>,
    key: String,
    value: (usize, usize),
)
    requires
        scope_layers(*old(m)).len() >= 1,
    ensures
        scope_layers(*final(m)) == scope_layers(*old(m)).update(
            scope_layers(*old(m)).len() - 1,
            scope_layers(*old(m)).last().insert(key@, value),
        ),
{
    m.define(key, value)
}

/// `ScopeMap::get`: the value of `key` in the innermost layer that defines it.
#[verifier::external_body]
fn index_get(m: &ScopeMap<String, (usize, usize), RandomState>, key: &str) -> (r: Option<
    (usize, usize),
>)
    ensures
        r == innermost(scope_layers(*m), key@),
{
    m.get(key).copied()
}

/// `Rc::clone`: another handle to the same value.
#[verifier::external_body]
pub(crate) fn share<T>(handle: &Rc<T>) -> (r: Rc<T>)
    ensures
        r == *handle,
{
    Rc::clone(handle)
}

/// Where `name` is bound in `layer`, if it is.
pub open spec fn position<V>(layer: Seq<(Seq<char>, V)>, name: Seq<char>) -> Option<int>
    decreases layer.len(),
{
    if layer.len() == 0 {
        None
    } else {
        match position(layer.drop_last(), name) {
            Some(j) => Some(j),
            None => if layer.last().0 == name {
                Some(layer.len() - 1)
            } else {
                None
            },
        }
    }
}

/// `layer` after `name` is bound to `value` in it: in place of the earlier
/// binding of `name`, or behind the others where there was none.
pub open spec fn layer_define<V>(layer: Seq<(Seq<char>, V)>, name: Seq<char>, value: V) -> Seq<
    (Seq<char>, V),
> {
    match position(layer, name) {
        Some(j) => layer.update(j, (name, value)),
        None => layer.push((name, value)),
    }
}

/// A fresh stack: one layer, nothing bound.
pub open spec fn fresh<V>() -> Seq<Seq<(Seq<char>, V)>> {
    seq![Seq::<(Seq<char>, V)>::empty()]
}

/// The stack after `name` is bound to `value` in its innermost layer.
pub open spec fn define<V>(layers: Seq<Seq<(Seq<char>, V)>>, name: Seq<char>, value: V) -> Seq<
    Seq<(Seq<char>, V)>,
> {
    layers.update(layers.len() - 1, layer_define(layers.last(), name, value))
}

/// The stack after each of `names` is bound, in order, to `value` in its
/// innermost layer.
pub open spec fn define_all<V>(layers: Seq<Seq<(Seq<char>, V)>>, names: Seq<Seq<char>>, value: V) -> Seq<
    Seq<(Seq<char>, V)>,
>
    decreases names.len(),
{
    if names.len() == 0 {
        layers
    } else {
        define(define_all(layers, names.drop_last(), value), names.last(), value)
    }
}

/// The stack with a new, empty innermost layer.
pub open spec fn push_layer<V>(layers: Seq<Seq<(Seq<char>, V)>>) -> Seq<Seq<(Seq<char>, V)>> {
    layers.push(Seq::<(Seq<char>, V)>::empty())
}

/// The stack without its innermost layer. The outermost layer is never
/// removed.
pub open spec fn pop_layer<V>(layers: Seq<Seq<(Seq<char>, V)>>) -> Seq<Seq<(Seq<char>, V)>> {
    if layers.len() > 1 {
        layers.drop_last()
    } else {
        layers
    }
}

/// What `name` is bound to: its binding in the innermost layer that has one.
pub open spec fn lookup<V>(layers: Seq<Seq<(Seq<char>, V)>>, name: Seq<char>) -> Option<V>
    decreases layers.len(),
{
    if layers.len() == 0 {
        None
    } else {
        match position(layers.last(), name) {
            Some(j) => Some(layers.last()[j].1),
            None => lookup(layers.drop_last(), name),
        }
    }
}

/// The bindings of `layer` whose names none of the layers `inner` binds.
pub open spec fn unshadowed<V>(layer: Seq<(Seq<char>, V)>, inner: Seq<Seq<(Seq<char>, V)>>) -> Seq<
    (Seq<char>, V),
>
    decreases layer.len(),
{
    if layer.len() == 0 {
        Seq::<(Seq<char>, V)>::empty()
    } else {
        let before = unshadowed(layer.drop_last(), inner);
        if lookup(inner, layer.last().0) is Some {
            before
        } else {
            before.push(layer.last())
        }
    }
}

/// The bindings that can be reached from the `count` innermost layers: layer
/// by layer from the innermost outwards, each layer in the order in which
/// its bindings were made, without those that an inner layer shadows.
pub open spec fn visible_in<V>(layers: Seq<Seq<(Seq<char>, V)>>, count: nat) -> Seq<(Seq<char>, V)>
    decreases count,
{
    if count == 0 || count > layers.len() {
        Seq::<(Seq<char>, V)>::empty()
    } else {
        visible_in(layers, (count - 1) as nat) + unshadowed(
            layers[layers.len() - count],
            layers.skip(layers.len() - count + 1),
        )
    }
}

/// Every binding that can be reached: see `visible_in`.
pub open spec fn visible<V>(layers: Seq<Seq<(Seq<char>, V)>>) -> Seq<(Seq<char>, V)> {
    visible_in(layers, layers.len())
}

/// Where `position` finds a name, the name stands, and nowhere before.
pub proof fn lemma_position<V>(layer: Seq<(Seq<char>, V)>, name: Seq<char>)
    ensures
        match position(layer, name) {
            Some(j) => 0 <= j < layer.len() && layer[j].0 == name && forall|i: int|
                0 <= i < j ==> (#[trigger] layer[i]).0 != name,
            None => forall|i: int| 0 <= i < layer.len() ==> (#[trigger] layer[i]).0 != name,
        },
    decreases layer.len(),
{
    if layer.len() > 0 {
        lemma_position(layer.drop_last(), name);
        assert(forall|i: int| 0 <= i < layer.len() - 1 ==> layer.drop_last()[i] == layer[i]);
    }
}

/// The layered table of the names that are visible at a point of a program.
pub struct ScopeStack<T> {
    /// The bindings, layer by layer from the outermost, each layer in the
    /// order in which its bindings were made.
    layers: Vec<Vec<(String, Rc<T>)>>,
    /// For each name, in each layer that binds it: the number of the layer
    /// and the place of the binding in it.
    index: ScopeMap<String, (usize, usize), RandomState>,
}

/// The plain value of one layer.
pub open spec fn layer_view<T: View>(layer: Vec<(String, Rc<T>)>) -> Seq<(Seq<char>, T::V)> {
    Seq::new(layer.len() as nat, |j: int| (layer[j].0@, layer[j].1@))
}

impl<T: View> View for ScopeStack<T> {
    type V = Seq<Seq<(Seq<char>, T::V)>>;

    closed spec fn view(&self) -> Seq<Seq<(Seq<char>, T::V)>> {
        Seq::new(self.layers.len() as nat, |k: int| layer_view(self.layers[k]))
    }
}

/// Whether the hash map `index` finds in each layer of `layers` the names
/// bound there, each at its place, and no others.
pub open spec fn indexed<V>(
    index: Seq<Map<Seq<char>, (usize, usize)>>,
    layers: Seq<Seq<(Seq<char>, V)>>,
) -> bool {
    &&& index.len() == layers.len()
    &&& forall|k: int, name: Seq<char>|
        0 <= k < layers.len() ==> (#[trigger] index[k].contains_key(name) <==> position(
            layers[k],
            name,
        ) is Some)
    &&& forall|k: int, name: Seq<char>|
        0 <= k < layers.len() && #[trigger] index[k].contains_key(name) ==> index[k][name].0 == k
            && index[k][name].1 == position(layers[k], name).unwrap()
}

/// Whether no name is bound twice in one layer.
pub open spec fn distinct<V>(layers: Seq<Seq<(Seq<char>, V)>>) -> bool {
    forall|k: int, i: int, j: int|
        0 <= k < layers.len() && 0 <= i < j < layers[k].len() ==> (#[trigger] layers[k][i]).0 != (
        #[trigger] layers[k][j]).0
}

/// Where the hash map finds a name, the innermost binding of the name stands.
pub proof fn lemma_indexed_lookup<V>(
    index: Seq<Map<Seq<char>, (usize, usize)>>,
    layers: Seq<Seq<(Seq<char>, V)>>,
    name: Seq<char>,
)
    requires
        indexed(index, layers),
    ensures
        match innermost(index, name) {
            Some((k, j)) => {
                &&& 0 <= k < layers.len()
                &&& position(layers[k as int], name) == Some(j as int)
                &&& 0 <= j < layers[k as int].len()
                &&& lookup(layers, name) == Some(layers[k as int][j as int].1)
                &&& lookup(layers.skip(k + 1), name) is None
            },
            None => lookup(layers, name) is None,
        },
    decreases layers.len(),
{
    if layers.len() > 0 {
        let last = layers.len() - 1;
        lemma_position(layers.last(), name);
        if index.last().contains_key(name) {
            assert(index[last].contains_key(name));
            assert(layers.skip(last + 1) =~= Seq::<Seq<(Seq<char>, V)>>::empty());
        } else {
            assert(!index[last].contains_key(name));
            let index0 = index.drop_last();
            let layers0 = layers.drop_last();
            assert(indexed(index0, layers0)) by {
                assert forall|k: int, n: Seq<char>| 0 <= k < layers0.len() implies (
                #[trigger] index0[k].contains_key(n) <==> position(layers0[k], n) is Some) by {
                    assert(index[k].contains_key(n) <==> position(layers[k], n) is Some);
                }
                assert forall|k: int, n: Seq<char>|
                    0 <= k < layers0.len() && #[trigger] index0[k].contains_key(
                        n,
                    ) implies index0[k][n].0 == k && index0[k][n].1 == position(
                    layers0[k],
                    n,
                ).unwrap() by {
                    assert(index[k].contains_key(n));
                }
            }
            lemma_indexed_lookup(index0, layers0, name);
            match innermost(index0, name) {
                Some((k, j)) => {
                    lemma_lookup_skip(layers, k + 1, name);
                    lemma_lookup_skip(layers0, k + 1, name);
                    assert(layers.skip(k + 1).drop_last() =~= layers0.skip(k + 1));
                },
                None => {},
            }
        }
    }
}

/// Looking a name up in the layers from `from` on sees the innermost layer
/// first, then the rest of them.
pub proof fn lemma_lookup_skip<V>(layers: Seq<Seq<(Seq<char>, V)>>, from: int, name: Seq<char>)
    requires
        0 <= from <= layers.len(),
    ensures
        from < layers.len() ==> layers.skip(from).last() == layers.last(),
        from < layers.len() ==> layers.skip(from).drop_last() == layers.drop_last().skip(from),
{
    if from < layers.len() {
        assert(layers.skip(from).drop_last() =~= layers.drop_last().skip(from));
    }
}

impl<T: View> ScopeStack<T> {
    /// Whether the stack is in order: it has a layer, no layer binds a name
    /// twice, and the hash map knows the place of every binding.
    pub closed spec fn wf(&self) -> bool {
        &&& self.layers.len() >= 1
        &&& distinct(self@)
        &&& indexed(scope_layers(self.index), self@)
    }

    /// A stack that is in order has a layer, and none of its layers binds
    /// a name twice.
    pub proof fn lemma_depth(&self)
        requires
            self.wf(),
        ensures
            self@.len() >= 1,
            distinct(self@),
    {
    }

    /// A stack with one layer and nothing bound.
    pub fn new() -> (r: Self)
        ensures
            r.wf(),
            r@ == fresh::<T::V>(),
    {
        let mut layers: Vec<Vec<(String, Rc<T>)>> = Vec::new();
        layers.push(Vec::new());
        let r = ScopeStack { layers, index: index_new() };
        assert(r@ =~~= fresh::<T::V>());
        r
    }

    /// How many layers are open, the outermost one counted.
    pub fn depth(&self) -> (r: usize)
        ensures
            r == self@.len(),
    {
        self.layers.len()
    }

    /// Opens a layer inside the innermost one.
    pub fn push_layer(&mut self)
        requires
            old(self).wf(),
        ensures
            final(self).wf(),
            final(self)@ == push_layer(old(self)@),
    {
        self.layers.push(Vec::new());
        index_push_layer(&mut self.index);
        assert(self@ =~~= push_layer(old(self)@));
    }

    /// Closes the innermost layer; what it bound is gone, what it shadowed
    /// is seen again. The outermost layer stays: of it, this says `false`
    /// and changes nothing.
    pub fn pop_layer(&mut self) -> (r: bool)
        requires
            old(self).wf(),
        ensures
            final(self).wf(),
            final(self)@ == pop_layer(old(self)@),
            r == (old(self)@.len() > 1),
    {
        if self.layers.len() > 1 {
            self.layers.pop();
            let r = index_pop_layer(&mut self.index);
            assert(self@ =~~= pop_layer(old(self)@));
            r
        } else {
            false
        }
    }

    /// What `name` is bound to at this point: the binding of the innermost
    /// layer that has one.
    pub fn lookup(&self, name: &str) -> (r: Option<Rc<T>>)
        requires
            self.wf(),
        ensures
            match r {
                Some(found) => lookup(self@, name@) == Some(found@),
                None => lookup(self@, name@) is None,
            },
    {
        proof {
            lemma_indexed_lookup(scope_layers(self.index), self@, name@);
        }
        match index_get(&self.index, name) {
            Some((k, j)) => Some(share(&self.layers[k][j].1)),
            None => None,
        }
    }

    /// Binds `name` to `decl` in the innermost layer. A binding of the same
    /// name in that layer is replaced; one further out is shadowed.
    pub fn define(&mut self, name: String, decl: Rc<T>)
        requires
            old(self).wf(),
        ensures
            final(self).wf(),
            final(self)@ == define(old(self)@, name@, decl@),
    {
        let depth: usize = self.layers.len();
        let found = index_get(&self.index, name.as_str());
        proof {
            lemma_indexed_lookup(scope_layers(self.index), self@, name@);
            lemma_position(self@.last(), name@);
        }
        let ghost before = self@;
        let ghost index0 = scope_layers(self.index);
        let mut top = self.layers.pop().unwrap();
        assert(layer_view(top) == before.last());
        let replace = match found {
            Some((k, j)) => if k == depth - 1 {
                Some(j)
            } else {
                None
            },
            None => None,
        };
        match replace {
            Some(j) => {
                assert(position(before.last(), name@) == Some(j as int));
                top.set(j, (name, decl));
                self.layers.push(top);
                assert(self@.last() =~= before.last().update(j as int, (name@, decl@)));
                assert(self@ =~= define(before, name@, decl@));
                assert(distinct(self@)) by {
                    assert forall|k: int, a: int, b: int|
                        0 <= k < self@.len() && 0 <= a < b < self@[k].len() implies (
                    #[trigger] self@[k][a]).0 != (#[trigger] self@[k][b]).0 by {
                        assert(before[k][a].0 != before[k][b].0);
                    }
                }
                assert(indexed(index0, self@)) by {
                    assert forall|k: int, n: Seq<char>| 0 <= k < self@.len() implies position(
                        self@[k],
                        n,
                    ) == position(before[k], n) by {
                        if k == depth - 1 {
                            lemma_position(self@[k], n);
                            lemma_position(before[k], n);
                            lemma_same_names(before[k], self@[k], n);
                        }
                    }
                    assert forall|k: int, n: Seq<char>| 0 <= k < self@.len() implies (
                    #[trigger] index0[k].contains_key(n) <==> position(self@[k], n) is Some) by {
                        assert(index0[k].contains_key(n) <==> position(before[k], n) is Some);
                    }
                }
            },
            None => {
                assert(position(before.last(), name@) is None) by {
                    if position(before.last(), name@) is Some {
                        assert(index0[depth - 1].contains_key(name@));
                    }
                }
                let j: usize = top.len();
                index_define(&mut self.index, name.clone(), (depth - 1, j));
                top.push((name, decl));
                self.layers.push(top);
                assert(self@.last() =~= before.last().push((name@, decl@)));
                assert(self@ =~= define(before, name@, decl@));
                assert(distinct(self@)) by {
                    assert forall|k: int, a: int, b: int|
                        0 <= k < self@.len() && 0 <= a < b < self@[k].len() implies (
                    #[trigger] self@[k][a]).0 != (#[trigger] self@[k][b]).0 by {
                        if k == depth - 1 && b == j {
                            assert(before[k][a].0 != name@);
                        } else {
                            assert(before[k][a].0 != before[k][b].0);
                        }
                    }
                }
                let ghost index1 = scope_layers(self.index);
                assert(indexed(index1, self@)) by {
                    assert forall|k: int, n: Seq<char>| 0 <= k < self@.len() implies (
                    #[trigger] index1[k].contains_key(n) <==> position(self@[k], n) is Some) by {
                        assert(index0[k].contains_key(n) <==> position(before[k], n) is Some);
                        if k == depth - 1 {
                            assert(self@[k].drop_last() =~= before[k]);
                        }
                    }
                    assert forall|k: int, n: Seq<char>|
                        0 <= k < self@.len() && #[trigger] index1[k].contains_key(
                            n,
                        ) implies index1[k][n].0 == k && index1[k][n].1 == position(
                        self@[k],
                        n,
                    ).unwrap() by {
                        if k == depth - 1 {
                            assert(self@[k].drop_last() =~= before[k]);
                            if n != name@ {
                                assert(index0[k].contains_key(n));
                            }
                        } else {
                            assert(index0[k].contains_key(n));
                        }
                    }
                }
            },
        }
    }

    /// Every binding that can be reached at this point, each with its name:
    /// from the innermost layer outwards, each layer in the order in which
    /// its bindings were made, shadowed bindings left out.
    pub fn visible_entries(&self) -> (r: Vec<(String, Rc<T>)>)
        requires
            self.wf(),
        ensures
            layer_view(r) == visible(self@),
    {
        let depth: usize = self.layers.len();
        let mut out: Vec<(String, Rc<T>)> = Vec::new();
        let mut count: usize = 0;
        assert(layer_view(out) =~= visible_in(self@, 0));
        while count < depth
            invariant
                self.wf(),
                depth == self.layers.len(),
                count <= depth,
                layer_view(out) == visible_in(self@, count as nat),
            decreases depth - count,
        {
            let k: usize = depth - 1 - count;
            let ghost start = layer_view(out);
            let ghost inner = self@.skip(k + 1);
            let mut j: usize = 0;
            assert(self@[k as int].take(0) =~= Seq::<(Seq<char>, T::V)>::empty());
            assert(layer_view(out) =~= start + unshadowed(self@[k as int].take(0), inner));
            while j < self.layers[k].len()
                invariant
                    self.wf(),
                    k < self.layers.len(),
                    j <= self.layers[k as int].len(),
                    inner == self@.skip(k + 1),
                    layer_view(out) == start + unshadowed(self@[k as int].take(j as int), inner),
                decreases self.layers[k as int].len() - j,
            {
                let found = index_get(&self.index, self.layers[k][j].0.as_str());
                let ghost name = self.layers[k as int][j as int].0@;
                let ghost taken = self@[k as int].take(j + 1);
                proof {
                    assert(self@[k as int][j as int].0 == name);
                    lemma_indexed_lookup(scope_layers(self.index), self@, name);
                    lemma_position(self@[k as int], name);
                    lemma_lookup_defined(self@, 0, k as int, name);
                    assert(self@.skip(0) =~= self@);
                    assert(taken.drop_last() =~= self@[k as int].take(j as int));
                    assert(taken.last() == self@[k as int][j as int]);
                }
                let shown = match found {
                    Some((k2, _)) => k2 == k,
                    None => false,
                };
                proof {
                    let k2 = found.unwrap().0;
                    if k2 > k {
                        lemma_lookup_defined(self@, k + 1, k2 as int, name);
                    } else if k2 < k {
                        lemma_lookup_defined(self@, k2 + 1, k as int, name);
                    }
                    assert(shown <==> lookup(inner, name) is None);
                }
                if shown {
                    let ghost before = layer_view(out);
                    out.push((self.layers[k][j].0.clone(), share(&self.layers[k][j].1)));
                    assert(layer_view(out) =~= before.push(self@[k as int][j as int]));
                    assert(layer_view(out) =~= start + unshadowed(taken, inner));
                }
                j += 1;
            }
            assert(self@[k as int].take(j as int) =~= self@[k as int]);
            count += 1;
        }
        out
    }
}

/// Two layers with the same names at the same places bind a name at the
/// same place.
pub proof fn lemma_same_names<V>(a: Seq<(Seq<char>, V)>, b: Seq<(Seq<char>, V)>, name: Seq<char>)
    requires
        a.len() == b.len(),
        forall|i: int| 0 <= i < a.len() ==> (#[trigger] a[i]).0 == b[i].0,
    ensures
        position(a, name) == position(b, name),
    decreases a.len(),
{
    if a.len() > 0 {
        lemma_same_names(a.drop_last(), b.drop_last(), name);
    }
}

/// A name that a layer binds is found from that layer and from every
/// layer further out.
pub proof fn lemma_lookup_defined<V>(
    layers: Seq<Seq<(Seq<char>, V)>>,
    from: int,
    k: int,
    name: Seq<char>,
)
    requires
        0 <= from <= k < layers.len(),
        position(layers[k], name) is Some,
    ensures
        lookup(layers.skip(from), name) is Some,
    decreases layers.len(),
{
    lemma_lookup_skip(layers, from, name);
    if k < layers.len() - 1 {
        lemma_lookup_defined(layers.drop_last(), from, k, name);
    }
}

/// A name is bound to what it was last defined as.
pub proof fn lemma_define_lookup<V>(layers: Seq<Seq<(Seq<char>, V)>>, name: Seq<char>, value: V)
    requires
        layers.len() >= 1,
    ensures
        lookup(define(layers, name, value), name) == Some(value),
{
    let layer = layers.last();
    let after = layer_define(layer, name, value);
    lemma_position(layer, name);
    lemma_position(after, name);
    assert(define(layers, name, value).last() == after);
    match position(layer, name) {
        Some(j) => {
            assert(after[j].0 == name);
        },
        None => {
            assert(after[layer.len() as int].0 == name);
        },
    }
}

/// Defining a name leaves the bindings of the other names as they were.
pub proof fn lemma_define_other<V>(
    layers: Seq<Seq<(Seq<char>, V)>>,
    name: Seq<char>,
    value: V,
    other: Seq<char>,
)
    requires
        layers.len() >= 1,
        other != name,
    ensures
        lookup(define(layers, name, value), other) == lookup(layers, other),
{
    let layer = layers.last();
    let after = layer_define(layer, name, value);
    lemma_position(layer, name);
    lemma_position(layer, other);
    lemma_position(after, other);
    assert(define(layers, name, value).last() == after);
    assert(define(layers, name, value).drop_last() =~= layers.drop_last());
    match position(layer, other) {
        Some(j) => {
            assert(after[j].0 == other);
            match position(after, other) {
                Some(i) => {
                    assert(layer[i].0 == other);
                },
                None => {},
            }
        },
        None => {
            match position(after, other) {
                Some(i) => {
                    if i < layer.len() {
                        assert(layer[i].0 == after[i].0);
                    }
                },
                None => {},
            }
        },
    }
}

/// Closing a layer that was just opened leaves the stack as it was.
pub proof fn lemma_pop_push<V>(layers: Seq<Seq<(Seq<char>, V)>>)
    requires
        layers.len() >= 1,
    ensures
        pop_layer(push_layer(layers)) == layers,
{
    assert(push_layer(layers).drop_last() =~= layers);
}

/// Closing a layer undoes what was defined in it.
pub proof fn lemma_pop_define<V>(layers: Seq<Seq<(Seq<char>, V)>>, name: Seq<char>, value: V)
    requires
        layers.len() >= 2,
    ensures
        pop_layer(define(layers, name, value)) == pop_layer(layers),
{
    assert(define(layers, name, value).drop_last() =~= layers.drop_last());
}

/// Shadowing: when a name is bound, and bound again in a layer opened after
/// that, the name stands for the second binding while that layer is open and
/// for the first one again once it is closed.
pub proof fn lemma_shadowing<V>(
    layers: Seq<Seq<(Seq<char>, V)>>,
    name: Seq<char>,
    outer: V,
    inner: V,
)
    requires
        layers.len() >= 1,
    ensures
        lookup(define(push_layer(define(layers, name, outer)), name, inner), name) == Some(inner),
        lookup(pop_layer(define(push_layer(define(layers, name, outer)), name, inner)), name)
            == Some(outer),
{
    let first = define(layers, name, outer);
    let opened = push_layer(first);
    lemma_define_lookup(layers, name, outer);
    lemma_define_lookup(opened, name, inner);
    lemma_pop_push(first);
    lemma_pop_define(opened, name, inner);
}

/// Defining names changes the innermost layer and no other.
pub proof fn lemma_define_all_frame<V>(
    layers: Seq<Seq<(Seq<char>, V)>>,
    names: Seq<Seq<char>>,
    value: V,
)
    requires
        layers.len() >= 1,
    ensures
        define_all(layers, names, value).len() == layers.len(),
        define_all(layers, names, value).drop_last() == layers.drop_last(),
    decreases names.len(),
{
    if names.len() > 0 {
        let before = define_all(layers, names.drop_last(), value);
        lemma_define_all_frame(layers, names.drop_last(), value);
        assert(define(before, names.last(), value).drop_last() =~= before.drop_last());
    }
}

/// Nothing shadows the bindings of a layer that has no layer inside it.
pub proof fn lemma_unshadowed_innermost<V>(layer: Seq<(Seq<char>, V)>)
    ensures
        unshadowed(layer, Seq::<Seq<(Seq<char>, V)>>::empty()) == layer,
    decreases layer.len(),
{
    if layer.len() > 0 {
        lemma_unshadowed_innermost(layer.drop_last());
        assert(layer.drop_last().push(layer.last()) =~= layer);
    }
}

/// What is reachable from some of the innermost layers is reachable from
/// more of them, at the same place.
pub proof fn lemma_visible_grows<V>(layers: Seq<Seq<(Seq<char>, V)>>, few: nat, many: nat)
    requires
        few <= many <= layers.len(),
    ensures
        visible_in(layers, few).len() <= visible_in(layers, many).len(),
        forall|i: int|
            0 <= i < visible_in(layers, few).len() ==> visible_in(layers, many)[i] == visible_in(
                layers,
                few,
            )[i],
    decreases many,
{
    if few < many {
        lemma_visible_grows(layers, few, (many - 1) as nat);
    }
}

/// Every binding of the innermost layer is reachable, at its place.
pub proof fn lemma_innermost_is_visible<V>(layers: Seq<Seq<(Seq<char>, V)>>, j: int)
    requires
        layers.len() >= 1,
        0 <= j < layers.last().len(),
    ensures
        j < visible(layers).len(),
        visible(layers)[j] == layers.last()[j],
{
    lemma_unshadowed_innermost(layers.last());
    assert(layers.skip(layers.len() as int) =~= Seq::<Seq<(Seq<char>, V)>>::empty());
    assert(visible_in(layers, 0) =~= Seq::<(Seq<char>, V)>::empty());
    assert(visible_in(layers, 1) =~= layers.last());
    lemma_visible_grows(layers, 1, layers.len());
}

/// In a layer that binds no name twice, a name is bound where it stands.
pub proof fn lemma_position_distinct<V>(layer: Seq<(Seq<char>, V)>, j: int)
    requires
        0 <= j < layer.len(),
        forall|a: int, b: int|
            0 <= a < b < layer.len() ==> (#[trigger] layer[a]).0 != (#[trigger] layer[b]).0,
    ensures
        position(layer, layer[j].0) == Some(j),
{
    lemma_position(layer, layer[j].0);
}

/// A binding that no inner layer shadows stays among the unshadowed ones.
pub proof fn lemma_unshadowed_keeps<V>(
    layer: Seq<(Seq<char>, V)>,
    inner: Seq<Seq<(Seq<char>, V)>>,
    j: int,
) -> (i: int)
    requires
        0 <= j < layer.len(),
        lookup(inner, layer[j].0) is None,
    ensures
        0 <= i < unshadowed(layer, inner).len(),
        unshadowed(layer, inner)[i] == layer[j],
    decreases layer.len(),
{
    let before = unshadowed(layer.drop_last(), inner);
    if j == layer.len() - 1 {
        before.len() as int
    } else {
        lemma_unshadowed_keeps(layer.drop_last(), inner, j)
    }
}

/// An unshadowed binding is a binding of the layer, and no inner layer
/// binds its name.
pub proof fn lemma_unshadowed_origin<V>(
    layer: Seq<(Seq<char>, V)>,
    inner: Seq<Seq<(Seq<char>, V)>>,
    i: int,
) -> (j: int)
    requires
        0 <= i < unshadowed(layer, inner).len(),
    ensures
        0 <= j < layer.len(),
        layer[j] == unshadowed(layer, inner)[i],
        lookup(inner, layer[j].0) is None,
    decreases layer.len(),
{
    let before = unshadowed(layer.drop_last(), inner);
    if i < before.len() {
        lemma_unshadowed_origin(layer.drop_last(), inner, i)
    } else {
        layer.len() - 1
    }
}

/// A name that a layer binds and no layer inside it does is bound to what
/// that layer gives it.
pub proof fn lemma_lookup_at<V>(layers: Seq<Seq<(Seq<char>, V)>>, k: int, name: Seq<char>)
    requires
        0 <= k < layers.len(),
        position(layers[k], name) is Some,
        lookup(layers.skip(k + 1), name) is None,
    ensures
        lookup(layers, name) == Some(layers[k][position(layers[k], name).unwrap()].1),
    decreases layers.len(),
{
    if k < layers.len() - 1 {
        lemma_lookup_skip(layers, k + 1, name);
        lemma_lookup_at(layers.drop_last(), k, name);
    }
}

/// The layer that gives a bound name its binding: the innermost that binds
/// it.
pub proof fn lemma_lookup_layer<V>(layers: Seq<Seq<(Seq<char>, V)>>, name: Seq<char>) -> (k: int)
    requires
        lookup(layers, name) is Some,
    ensures
        0 <= k < layers.len(),
        position(layers[k], name) is Some,
        lookup(layers.skip(k + 1), name) is None,
        lookup(layers, name) == Some(layers[k][position(layers[k], name).unwrap()].1),
    decreases layers.len(),
{
    if position(layers.last(), name) is Some {
        assert(layers.skip(layers.len() as int) =~= Seq::<Seq<(Seq<char>, V)>>::empty());
        layers.len() - 1
    } else {
        let k = lemma_lookup_layer(layers.drop_last(), name);
        lemma_lookup_skip(layers, k + 1, name);
        k
    }
}

/// What can be reached is what is bound: every name that is bound stands
/// among the reachable bindings, with what it is bound to.
pub proof fn lemma_bound_is_visible<V>(layers: Seq<Seq<(Seq<char>, V)>>, name: Seq<char>) -> (i:
    int)
    requires
        lookup(layers, name) is Some,
    ensures
        0 <= i < visible(layers).len(),
        visible(layers)[i] == (name, lookup(layers, name).unwrap()),
{
    let k = lemma_lookup_layer(layers, name);
    let j = position(layers[k], name).unwrap();
    lemma_position(layers[k], name);
    let inner = layers.skip(k + 1);
    let at = lemma_unshadowed_keeps(layers[k], inner, j);
    let count = (layers.len() - k) as nat;
    let before = visible_in(layers, (count - 1) as nat);
    assert(visible_in(layers, count) == before + unshadowed(layers[k], inner));
    lemma_visible_grows(layers, count, layers.len());
    before.len() + at
}

/// What can be reached is what is bound: in a stack whose layers bind no
/// name twice, every reachable binding is what its name is bound to.
pub proof fn lemma_visible_is_bound<V>(layers: Seq<Seq<(Seq<char>, V)>>, count: nat, i: int)
    requires
        distinct(layers),
        count <= layers.len(),
        0 <= i < visible_in(layers, count).len(),
    ensures
        lookup(layers, visible_in(layers, count)[i].0) == Some(visible_in(layers, count)[i].1),
    decreases count,
{
    if count > 0 {
        let before = visible_in(layers, (count - 1) as nat);
        if i < before.len() {
            lemma_visible_is_bound(layers, (count - 1) as nat, i);
        } else {
            let k = layers.len() - count;
            let inner = layers.skip(k + 1);
            let j = lemma_unshadowed_origin(layers[k], inner, i - before.len());
            assert forall|a: int, b: int| 0 <= a < b < layers[k].len() implies (
            #[trigger] layers[k][a]).0 != (#[trigger] layers[k][b]).0 by {}
            lemma_position_distinct(layers[k], j);
            lemma_lookup_at(layers, k, layers[k][j].0);
        }
    }
}

} // verus!
