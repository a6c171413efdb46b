use vstd::prelude::*;
use crate::chars::{
    char_alphanumeric, char_whitespace, chars_to_string, trim_spec, trim_ws, unicode_alphanumeric,
    unicode_whitespace,
};

verus! {

/// A character the sanitizer keeps as it stands: underscore, hyphen, or an
/// alphanumeric character.
pub open spec fn keeps(c: char) -> bool {
    c == '_' || c == '-' || (!unicode_whitespace(c) && unicode_alphanumeric(c))
}

/// A character the sanitizer folds into a whitespace run.
pub open spec fn spaces(c: char) -> bool {
    c != '_' && c != '-' && unicode_whitespace(c)
}

/// The sanitized form of the remaining input. `in_run` records that a
/// whitespace run is open and its single underscore is already written;
/// a dropped character does not close an open run.
pub open spec fn sanitize_from(s: Seq<char>, in_run: bool) -> Seq<char>
    decreases s.len(),
{
    if s.len() == 0 {
        Seq::<char>::empty()
    } else if keeps(s[0]) {
        seq![s[0]] + sanitize_from(s.drop_first(), false)
    } else if spaces(s[0]) {
        if in_run {
            sanitize_from(s.drop_first(), true)
        } else {
            seq!['_'] + sanitize_from(s.drop_first(), true)
        }
    } else {
        sanitize_from(s.drop_first(), in_run)
    }
}

/// The filesystem-safe form of a display name: characters that are not
/// alphanumeric, underscore, hyphen or whitespace are removed, and every
/// whitespace run becomes a single underscore.
pub open spec fn sanitize_spec(s: Seq<char>) -> Seq<char> {
    sanitize_from(s, false)
}

/// The directory segment for a display name: the name trimmed, then sanitized.
pub open spec fn folder_spec(name: Seq<char>) -> Seq<char> {
    sanitize_spec(trim_spec(name))
}

/// Maps a display name to a filesystem-segment-safe name.
pub fn sanitize(name: &str) -> (r: String)
    ensures
        r@ == sanitize_spec(name@),
{
    let n = name.unicode_len();
    let mut out: Vec<char> = Vec::new();
    let mut in_run: bool = false;
    let mut i: usize = 0;
    proof {
        assert(name@.skip(0) =~= name@);
    }
    while i < n
        invariant
            n == name@.len(),
            i <= n,
            sanitize_spec(name@) == out@ + sanitize_from(name@.skip(i as int), in_run),
        decreases n - i,
    {
        let ghost pre = out@;
        let ghost tail = name@.skip(i as int);
        let c = name.get_char(i);
        proof {
            assert(tail[0] == c);
            assert(tail.drop_first() =~= name@.skip(i as int + 1));
        }
        if c == '_' || c == '-' {
            out.push(c);
            in_run = false;
            proof {
                assert(pre + (seq![c] + sanitize_from(tail.drop_first(), false)) =~= out@
                    + sanitize_from(tail.drop_first(), false));
            }
        } else if char_whitespace(c) {
            if !in_run {
                out.push('_');
                proof {
                    assert(pre + (seq!['_'] + sanitize_from(tail.drop_first(), true)) =~= out@
                        + sanitize_from(tail.drop_first(), true));
                }
            }
            in_run = true;
        } else if char_alphanumeric(c) {
            out.push(c);
            in_run = false;
            proof {
                assert(pre + (seq![c] + sanitize_from(tail.drop_first(), false)) =~= out@
                    + sanitize_from(tail.drop_first(), false));
            }
        } else {
            proof {
                assert(!keeps(c) && !spaces(c));
            }
        }
        i = i + 1;
    }
    proof {
        assert(name@.skip(n as int) =~= Seq::<char>::empty());
        assert(out@ + Seq::<char>::empty() =~= out@);
    }
    chars_to_string(&out)
}

/// The directory segment for a display name: the name trimmed, then sanitized.
pub fn institution_folder(name: &str) -> (r: String)
    ensures
        r@ == folder_spec(name@),
{
    let t = trim_ws(name);
    sanitize(t)
}

/// Every character of a sanitized name is kept as it stands and is not
/// whitespace.
pub proof fn lemma_sanitize_chars(s: Seq<char>, b: bool)
    ensures
        forall|i: int|
            0 <= i < sanitize_from(s, b).len() ==> keeps(#[trigger] sanitize_from(s, b)[i])
                && !spaces(sanitize_from(s, b)[i]),
    decreases s.len(),
{
    if s.len() == 0 {
    } else if keeps(s[0]) {
        lemma_sanitize_chars(s.drop_first(), false);
        assert forall|i: int| 0 <= i < sanitize_from(s, b).len() implies keeps(
            #[trigger] sanitize_from(s, b)[i],
        ) && !spaces(sanitize_from(s, b)[i]) by {
            if i == 0 {
                assert(sanitize_from(s, b)[0] == s[0]);
            } else {
                assert(sanitize_from(s, b)[i] == sanitize_from(s.drop_first(), false)[i - 1]);
            }
        }
    } else if spaces(s[0]) {
        lemma_sanitize_chars(s.drop_first(), true);
        if b {
            assert(sanitize_from(s, b) == sanitize_from(s.drop_first(), true));
        } else {
            assert forall|i: int| 0 <= i < sanitize_from(s, b).len() implies keeps(
                #[trigger] sanitize_from(s, b)[i],
            ) && !spaces(sanitize_from(s, b)[i]) by {
                if i == 0 {
                    assert(sanitize_from(s, b)[0] == '_');
                } else {
                    assert(sanitize_from(s, b)[i] == sanitize_from(s.drop_first(), true)[i - 1]);
                }
            }
        }
    } else {
        lemma_sanitize_chars(s.drop_first(), b);
        assert(sanitize_from(s, b) == sanitize_from(s.drop_first(), b));
    }
}

/// Sanitizing a string of only kept, non-whitespace characters returns it
/// unchanged.
proof fn lemma_sanitize_fixed(s: Seq<char>)
    requires
        forall|i: int| 0 <= i < s.len() ==> keeps(#[trigger] s[i]) && !spaces(s[i]),
    ensures
        sanitize_from(s, false) == s,
    decreases s.len(),
{
    if s.len() == 0 {
        assert(sanitize_from(s, false) =~= s);
    } else {
        lemma_sanitize_fixed(s.drop_first());
        assert(seq![s[0]] + s.drop_first() =~= s);
    }
}

/// The sanitizer is idempotent: sanitizing an already-sanitized name is a
/// no-op.
pub proof fn lemma_sanitize_idempotent(s: Seq<char>)
    ensures
        sanitize_spec(sanitize_spec(s)) == sanitize_spec(s),
{
    lemma_sanitize_chars(s, false);
    lemma_sanitize_fixed(sanitize_spec(s));
}

} // verus!
