//! What holds of the parts of a path that is text: the components of valid
//! UTF-8 are valid UTF-8, and so is what `split` makes of them.

use vstd::prelude::*;
use vstd::utf8::valid_utf8;
use crate::path::{components, components_from, join_from, spec_split, SLASH};

verus! {

/// The bytes of `path` from byte `k` on.
pub open spec fn suffix(path: Seq<u8>, k: int) -> Seq<u8> {
    path.subrange(k, path.len() as int)
}

/// Whether each of these byte strings is valid UTF-8.
pub open spec fn all_valid(comps: Seq<Seq<u8>>) -> bool {
    forall|k: int| 0 <= k < comps.len() ==> valid_utf8(#[trigger] comps[k])
}

/// A slash is valid UTF-8.
pub proof fn lemma_slash_valid()
    ensures
        valid_utf8(seq![SLASH]),
{
    let s = seq![SLASH];
    assert(s[0] == 47);
    assert(vstd::utf8::pop_first_scalar(s) =~= Seq::<u8>::empty());
    reveal_with_fuel(valid_utf8, 2);
}

/// What follows a slash in valid UTF-8 is valid UTF-8.
proof fn lemma_after_slash(path: Seq<u8>, i: int)
    requires
        0 <= i < path.len(),
        path[i] == SLASH,
        valid_utf8(suffix(path, i)),
    ensures
        valid_utf8(suffix(path, i + 1)),
{
    let s = suffix(path, i);
    assert(s[0] == 47);
    assert(vstd::utf8::pop_first_scalar(s) =~= suffix(path, i + 1));
}

/// The components of valid UTF-8 are valid UTF-8: a slash never lies
/// inside the encoding of a character.
proof fn lemma_components_from_valid(path: Seq<u8>, i: int, start: int, cur: Seq<u8>)
    requires
        0 <= start <= i <= path.len(),
        valid_utf8(suffix(path, start)),
        cur == path.subrange(start, i),
    ensures
        all_valid(components_from(path, i, cur)),
    decreases path.len() - i,
{
    if i >= path.len() {
        assert(cur =~= suffix(path, start));
    } else if path[i] == SLASH {
        let t = suffix(path, start);
        assert(t[i - start] == 47);
        vstd::utf8::is_char_boundary_iff_not_is_continuation_byte(t, i - start);
        vstd::utf8::valid_utf8_split(t, i - start);
        assert(t.subrange(0, i - start) =~= cur);
        assert(t.subrange(i - start, t.len() as int) =~= suffix(path, i));
        lemma_after_slash(path, i);
        assert(Seq::<u8>::empty() =~= path.subrange(i + 1, i + 1));
        lemma_components_from_valid(path, i + 1, i + 1, Seq::empty());
        let rest = components_from(path, i + 1, Seq::empty());
        if cur.len() > 0 {
            assert forall|k: int| 0 <= k < (seq![cur] + rest).len() implies valid_utf8(
                #[trigger] (seq![cur] + rest)[k],
            ) by {
                if k > 0 {
                    assert((seq![cur] + rest)[k] == rest[k - 1]);
                }
            }
        }
    } else {
        assert(cur.push(path[i]) =~= path.subrange(start, i + 1));
        lemma_components_from_valid(path, i + 1, start, cur.push(path[i]));
    }
}

/// The components of a path that is valid UTF-8 are valid UTF-8.
pub proof fn lemma_components_valid(path: Seq<u8>)
    requires
        valid_utf8(path),
    ensures
        all_valid(components(path)),
{
    assert(suffix(path, 0) =~= path);
    assert(Seq::<u8>::empty() =~= path.subrange(0, 0));
    lemma_components_from_valid(path, 0, 0, Seq::empty());
}

/// Components that are valid UTF-8 make a path that is valid UTF-8.
pub proof fn lemma_join_valid(comps: Seq<Seq<u8>>, k: int)
    requires
        all_valid(comps),
    ensures
        valid_utf8(join_from(comps, k)),
    decreases comps.len() - k,
{
    if 0 <= k < comps.len() {
        lemma_slash_valid();
        lemma_join_valid(comps, k + 1);
        vstd::utf8::valid_utf8_concat(seq![SLASH], comps[k]);
        vstd::utf8::valid_utf8_concat(seq![SLASH] + comps[k], join_from(comps, k + 1));
    }
}

/// The two parts that `split` makes of a path that is valid UTF-8 are
/// valid UTF-8.
pub proof fn lemma_split_valid(path: Seq<u8>)
    requires
        valid_utf8(path),
        spec_split(path) is Ok,
    ensures
        valid_utf8(spec_split(path)->Ok_0.0),
        valid_utf8(spec_split(path)->Ok_0.1),
{
    let c = components(path);
    lemma_components_valid(path);
    lemma_slash_valid();
    if c.len() > 0 {
        let d = c.drop_last();
        assert(all_valid(d)) by {
            assert forall|k: int| 0 <= k < d.len() implies valid_utf8(#[trigger] d[k]) by {
                assert(d[k] == c[k]);
            }
        }
        if d.len() > 0 {
            lemma_join_valid(d, 0);
        }
    }
}

} // verus!
