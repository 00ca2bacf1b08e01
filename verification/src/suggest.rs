//! "Did you mean": the visible name that is closest to one that was not found.

use vstd::prelude::*;
use vstd::string::StringExecFns;
use vstd::utf8::encode_utf8;
use crate::scope::{layer_view, visible, ScopeStack};
use crate::text::chars_of;

verus! {

/// The least of three numbers.
pub open spec fn min3(a: nat, b: nat, c: nat) -> nat {
    if a <= b && a <= c {
        a
    } else if b <= c {
        b
    } else {
        c
    }
}

/// The edit distance of Levenshtein between `s` and `t`: the least number of
/// characters to insert, delete or replace that turns `s` into `t`.
pub open spec fn levenshtein(s: Seq<char>, t: Seq<char>) -> nat
    decreases s.len() + t.len(),
{
    if s.len() == 0 {
        t.len()
    } else if t.len() == 0 {
        s.len()
    } else {
        min3(
            levenshtein(s.drop_last(), t) + 1,
            levenshtein(s, t.drop_last()) + 1,
            levenshtein(s.drop_last(), t.drop_last()) + if s.last() == t.last() {
                0nat
            } else {
                1nat
            },
        )
    }
}

/// `distance::levenshtein`: the edit distance between two strings, counted
/// in characters. It fills a table by the rule that `levenshtein` states,
/// one row for each beginning of `s` and one column for each beginning of
/// `t`, and gives back the last entry.
#[verifier::external_body]
fn edit_distance(s: &str, t: &str) -> (r: usize)
    ensures
        r == levenshtein(s@, t@),
{
    distance::levenshtein(s, t)
}

/// The length of a string in bytes, as UTF-8.
pub open spec fn byte_len(s: Seq<char>) -> nat {
    encode_utf8(s).len()
}

/// `s` without the separators that split a name into its stems.
pub open spec fn strip_separators(s: Seq<char>) -> Seq<char>
    decreases s.len(),
{
    if s.len() == 0 {
        Seq::<char>::empty()
    } else if s.last() == '.' {
        strip_separators(s.drop_last())
    } else {
        strip_separators(s.drop_last()).push(s.last())
    }
}

/// A name as it is shown to the user: without its separators.
pub fn stripped(name: &str) -> (r: String)
    ensures
        r@ == strip_separators(name@),
{
    let chars = chars_of(name);
    let mut out = String::new();
    let mut i: usize = 0;
    while i < chars.len()
        invariant
            i <= chars.len(),
            out@ == strip_separators(chars@.take(i as int)),
        decreases chars.len() - i,
    {
        assert(chars@.take(i + 1).drop_last() =~= chars@.take(i as int));
        if chars[i] != '.' {
            out.push(chars[i]);
        }
        i += 1;
    }
    assert(chars@.take(i as int) =~= chars@);
    out
}

/// The names of a list of bindings.
pub open spec fn names_of<V>(entries: Seq<(Seq<char>, V)>) -> Seq<Seq<char>> {
    Seq::new(entries.len(), |i: int| entries[i].0)
}

/// The place, among `names`, of the name closest to `name`: the first of
/// those at the least distance.
pub open spec fn closest_index(names: Seq<Seq<char>>, name: Seq<char>) -> int
    decreases names.len(),
{
    if names.len() <= 1 {
        0
    } else {
        let before = closest_index(names.drop_last(), name);
        if levenshtein(name, names.last()) < levenshtein(name, names[before]) {
            names.len() - 1
        } else {
            before
        }
    }
}

/// Whether `candidate` is near enough to `name` to be proposed: twice their
/// distance is less than the length of `candidate` in bytes.
pub open spec fn near_enough(name: Seq<char>, candidate: Seq<char>) -> bool {
    2 * levenshtein(name, candidate) < byte_len(candidate)
}

/// What is proposed in place of `name`, which was not found among `names`:
/// the closest of `names`, without its separators, if it is near enough.
pub open spec fn suggestion(names: Seq<Seq<char>>, name: Seq<char>) -> Option<Seq<char>> {
    if names.len() == 0 {
        None
    } else {
        let candidate = names[closest_index(names, name)];
        if near_enough(name, candidate) {
            Some(strip_separators(candidate))
        } else {
            None
        }
    }
}

/// How a proposal is worded behind a message; nothing where there is none.
pub open spec fn suggestion_text(proposal: Option<Seq<char>>) -> Seq<char> {
    match proposal {
        Some(candidate) => ". Maybe you meant: '"@ + candidate + "'?"@,
        None => Seq::<char>::empty(),
    }
}

/// The closest candidate stands among the names, and none is closer.
pub proof fn lemma_closest_index(names: Seq<Seq<char>>, name: Seq<char>)
    requires
        names.len() > 0,
    ensures
        0 <= closest_index(names, name) < names.len(),
        forall|i: int|
            0 <= i < names.len() ==> levenshtein(name, names[closest_index(names, name)])
                <= levenshtein(name, #[trigger] names[i]),
        forall|i: int|
            0 <= i < closest_index(names, name) ==> levenshtein(
                name,
                names[closest_index(names, name)],
            ) < levenshtein(name, #[trigger] names[i]),
    decreases names.len(),
{
    if names.len() > 1 {
        lemma_closest_index(names.drop_last(), name);
        assert(forall|i: int| 0 <= i < names.len() - 1 ==> names.drop_last()[i] == names[i]);
    }
}

/// The name to propose in place of `name`, which `scope` does not bind.
pub fn suggest<T: View>(scope: &ScopeStack<T>, name: &str) -> (r: Option<String>)
    requires
        scope.wf(),
    ensures
        match r {
            Some(text) => suggestion(names_of(visible(scope@)), name@) == Some(text@),
            None => suggestion(names_of(visible(scope@)), name@) is None,
        },
{
    let entries = scope.visible_entries();
    let ghost names = names_of(visible(scope@));
    if entries.len() == 0 {
        return None;
    }
    let mut best: usize = 0;
    let mut least: usize = edit_distance(name, entries[0].0.as_str());
    let mut i: usize = 1;
    assert(names.take(1).drop_last() =~= names.take(0));
    while i < entries.len()
        invariant
            1 <= i <= entries.len(),
            names == names_of(layer_view(entries)),
            best == closest_index(names.take(i as int), name@),
            best < i,
            least == levenshtein(name@, names[best as int]),
        decreases entries.len() - i,
    {
        let d: usize = edit_distance(name, entries[i].0.as_str());
        proof {
            assert(names.take(i + 1).drop_last() =~= names.take(i as int));
            assert(names.take(i + 1).last() == names[i as int]);
            assert(names.take(i + 1)[best as int] == names[best as int]);
        }
        if d < least {
            best = i;
            least = d;
        }
        i += 1;
    }
    assert(names.take(i as int) =~= names);
    let candidate: &str = entries[best].0.as_str();
    let length: usize = candidate.as_bytes().len();
    if least < length && least < length - least {
        Some(stripped(candidate))
    } else {
        None
    }
}

/// What to add to a message about `name`, which `scope` does not bind: the
/// proposal in words, or nothing.
pub fn closest<T: View>(scope: &ScopeStack<T>, name: &str) -> (r: String)
    requires
        scope.wf(),
    ensures
        r@ == suggestion_text(suggestion(names_of(visible(scope@)), name@)),
{
    match suggest(scope, name) {
        Some(candidate) => {
            let mut out = ". Maybe you meant: '".to_owned();
            out.append(candidate.as_str());
            out.append("'?");
            out
        },
        None => String::new(),
    }
}

} // verus!
