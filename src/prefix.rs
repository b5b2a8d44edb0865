use vstd::prelude::*;

verus! {

/// A buffer that starts with `a + b` starts with `a`, and what follows `a` in
/// it starts with `b`.
pub proof fn lemma_concat_prefix(a: Seq<u8>, b: Seq<u8>, s: Seq<u8>)
    requires
        (a + b).is_prefix_of(s),
    ensures
        a.is_prefix_of(s),
        b.is_prefix_of(s.subrange(a.len() as int, s.len() as int)),
{
    assert forall|i: int| 0 <= i < a.len() implies s[i] == a[i] by {
        assert(s.subrange(0, (a + b).len() as int)[i] == s[i]);
        assert((a + b)[i] == a[i]);
    }
    assert(a =~= s.subrange(0, a.len() as int));
    let rest = s.subrange(a.len() as int, s.len() as int);
    assert forall|i: int| 0 <= i < b.len() implies rest[i] == b[i] by {
        assert(s.subrange(0, (a + b).len() as int)[a.len() + i] == s[a.len() + i]);
        assert((a + b)[a.len() + i] == b[i]);
    }
    assert(b =~= rest.subrange(0, b.len() as int));
}

/// A part `s` of `a + b`: if it is shorter than `a` it is a part of `a`;
/// otherwise it starts with `a`, and what follows is a part of `b`.
pub proof fn lemma_prefix_of_concat(a: Seq<u8>, b: Seq<u8>, s: Seq<u8>)
    requires
        s.is_prefix_of(a + b),
    ensures
        s.len() < a.len() ==> s.is_prefix_of(a),
        s.len() >= a.len() ==> a.is_prefix_of(s) && s.subrange(
            a.len() as int,
            s.len() as int,
        ).is_prefix_of(b),
{
    assert forall|i: int| 0 <= i < s.len() implies s[i] == (a + b)[i] by {
        assert((a + b).subrange(0, s.len() as int)[i] == (a + b)[i]);
    }
    if s.len() < a.len() {
        assert(s =~= a.subrange(0, s.len() as int));
    } else {
        assert(a =~= s.subrange(0, a.len() as int));
        let rest = s.subrange(a.len() as int, s.len() as int);
        assert(rest =~= b.subrange(0, rest.len() as int));
    }
}

} // verus!
