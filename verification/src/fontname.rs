use vstd::prelude::*;
use vstd::string::StrSliceExecFns;
use crate::codec::push_char;

verus! {

/// The characters after the last path separator: the file's name within
/// its directory.
pub open spec fn after_last_sep(s: Seq<char>) -> Seq<char>
    decreases s.len(),
{
    if s.len() == 0 {
        s
    } else if s.last() == '/' {
        Seq::empty()
    } else {
        after_last_sep(s.drop_last()).push(s.last())
    }
}

/// The position of the last dot that can begin an extension. A dot in the
/// leading position names a hidden file, not an extension, so only dots
/// from position one on count; negative when there is none.
pub open spec fn last_stem_dot(name: Seq<char>) -> int
    decreases name.len(),
{
    if name.len() <= 1 {
        -1
    } else if name.last() == '.' {
        name.len() - 1
    } else {
        last_stem_dot(name.drop_last())
    }
}

/// The file name with its extension stripped.
pub open spec fn stem_of(name: Seq<char>) -> Seq<char> {
    let i = last_stem_dot(name);
    if i >= 1 {
        name.take(i)
    } else {
        name
    }
}

/// The font file's base name: no directory, no extension.
pub open spec fn base_name_of(path: Seq<char>) -> Seq<char> {
    stem_of(after_last_sep(path))
}

proof fn lemma_after_last_sep(s: Seq<char>, cut: int)
    requires
        0 <= cut <= s.len(),
        cut == 0 || s[cut - 1] == '/',
        forall|j: int| cut <= j < s.len() ==> s[j] != '/',
    ensures
        after_last_sep(s) == s.subrange(cut, s.len() as int),
    decreases s.len(),
{
    if s.len() == 0 {
        assert(s.subrange(0, 0) =~= s);
    } else if s.last() == '/' {
        assert(cut == s.len());
        assert(s.subrange(cut, s.len() as int) =~= Seq::<char>::empty());
    } else {
        assert(cut < s.len());
        assert(cut == 0 || s.drop_last()[cut - 1] == '/');
        lemma_after_last_sep(s.drop_last(), cut);
        assert(s.drop_last().subrange(cut, s.len() - 1) =~= s.subrange(cut, s.len() - 1));
        assert(after_last_sep(s) =~= s.subrange(cut, s.len() as int));
    }
}

proof fn lemma_last_stem_dot_none(name: Seq<char>)
    requires
        forall|j: int| 1 <= j < name.len() ==> name[j] != '.',
    ensures
        last_stem_dot(name) == -1,
    decreases name.len(),
{
    if name.len() > 1 {
        assert forall|j: int| 1 <= j < name.drop_last().len() implies name.drop_last()[j]
            != '.' by {
            assert(name.drop_last()[j] == name[j]);
        }
        lemma_last_stem_dot_none(name.drop_last());
    }
}

proof fn lemma_last_stem_dot_at(name: Seq<char>, i: int)
    requires
        1 <= i < name.len(),
        name[i] == '.',
        forall|j: int| i < j < name.len() ==> name[j] != '.',
    ensures
        last_stem_dot(name) == i,
    decreases name.len(),
{
    if i < name.len() - 1 {
        assert(name.last() != '.');
        assert(name.drop_last()[i] == name[i]);
        assert forall|j: int| i < j < name.drop_last().len() implies name.drop_last()[j]
            != '.' by {
            assert(name.drop_last()[j] == name[j]);
        }
        lemma_last_stem_dot_at(name.drop_last(), i);
    }
}

/// Derives the atlas's font name from the font file's path: the base name,
/// with the directory and the extension stripped. A dot in the leading
/// position of the file name is kept: it marks a hidden file, not an
/// extension.
pub fn font_base_name(path: &String) -> (r: String)
    ensures
        r@ == base_name_of(path@),
{
    let pstr = path.as_str();
    let n = pstr.unicode_len();
    let mut cut: usize = 0;
    let mut k: usize = 0;
    while k < n
        invariant
            pstr@ == path@,
            cut <= k <= n,
            n == path@.len(),
            cut == 0 || path@[cut as int - 1] == '/',
            forall|j: int| cut <= j < k ==> path@[j] != '/',
        decreases n - k,
    {
        if pstr.get_char(k) == '/' {
            cut = k + 1;
        }
        k = k + 1;
    }
    let mut dot: usize = 0;
    let mut has_dot: bool = false;
    let mut t: usize = cut;
    while t < n
        invariant
            pstr@ == path@,
            cut <= t <= n,
            n == path@.len(),
            has_dot ==> cut < dot < t && path@[dot as int] == '.',
            has_dot ==> forall|j: int| dot < j < t ==> path@[j] != '.',
            !has_dot ==> forall|j: int| cut < j < t ==> path@[j] != '.',
        decreases n - t,
    {
        if t > cut && pstr.get_char(t) == '.' {
            dot = t;
            has_dot = true;
        }
        t = t + 1;
    }
    let end: usize = if has_dot {
        dot
    } else {
        n
    };
    let mut out = String::new();
    let mut p: usize = cut;
    while p < end
        invariant
            pstr@ == path@,
            cut <= p <= end <= n,
            n == path@.len(),
            out@ == path@.subrange(cut as int, p as int),
        decreases end - p,
    {
        let c = pstr.get_char(p);
        push_char(&mut out, c);
        proof {
            assert(out@ =~= path@.subrange(cut as int, p as int + 1));
        }
        p = p + 1;
    }
    proof {
        lemma_after_last_sep(path@, cut as int);
        let name = path@.subrange(cut as int, n as int);
        if has_dot {
            let i = dot as int - cut as int;
            assert(name[i] == '.');
            assert forall|j: int| i < j < name.len() implies name[j] != '.' by {
                assert(name[j] == path@[cut + j]);
            }
            lemma_last_stem_dot_at(name, i);
            assert(name.take(i) =~= path@.subrange(cut as int, dot as int));
        } else {
            assert forall|j: int| 1 <= j < name.len() implies name[j] != '.' by {
                assert(name[j] == path@[cut + j]);
            }
            lemma_last_stem_dot_none(name);
        }
    }
    out
}

} // verus!
