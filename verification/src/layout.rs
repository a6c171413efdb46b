use vstd::prelude::*;
use crate::chars::chars_to_string;
use crate::numbers::{
    dec_spec, is_digit, lemma_dec_digits, lemma_dec_injective, usize_decimal,
};
use crate::text::{starts_with_seq, starts_with_str};

verus! {

/// A path inside a directory: the directory, a separator, the file name.
pub open spec fn joined(dir: Seq<char>, name: Seq<char>) -> Seq<char> {
    dir + "/"@ + name
}

/// Joins a directory and a name with a separator.
pub fn join_path(dir: &str, name: &str) -> (r: String)
    ensures
        r@ == joined(dir@, name@),
{
    let mut s = dir.to_owned();
    s.append("/");
    s.append(name);
    s
}

/// The fixed file name of a mirrored page.
pub open spec fn page_name() -> Seq<char> {
    "index.html"@
}

/// The fixed file name of a mirrored page.
pub fn page_filename() -> (r: String)
    ensures
        r@ == page_name(),
{
    "index.html".to_owned()
}

/// The file name of the media fragment at a one-based position.
pub open spec fn fragment_name_spec(i: nat) -> Seq<char> {
    "video_"@ + dec_spec(i) + ".html"@
}

/// The file name of the media fragment at a one-based position.
pub fn fragment_filename(i: usize) -> (r: String)
    ensures
        r@ == fragment_name_spec(i as nat),
{
    let mut s = "video_".to_owned();
    let digits = usize_decimal(i);
    let ds = chars_to_string(&digits);
    s.append(ds.as_str());
    s.append(".html");
    s
}

/// The string holds no path separator.
pub open spec fn no_separator(s: Seq<char>) -> bool {
    forall|i: int| 0 <= i < s.len() ==> s[i] != '/'
}

/// Joining is injective while the file name holds no separator: a path names
/// one directory and one file.
pub proof fn lemma_join_injective(a: Seq<char>, x: Seq<char>, b: Seq<char>, y: Seq<char>)
    requires
        joined(a, x) == joined(b, y),
        no_separator(x),
        no_separator(y),
    ensures
        a == b,
        x == y,
{
    reveal_strlit("/");
    let s = joined(a, x);
    let la = a.len() as int;
    let lb = b.len() as int;
    assert("/"@.len() == 1);
    assert("/"@[0] == '/');
    assert((a + "/"@)[la] == '/');
    assert(s[la] == (a + "/"@)[la]);
    assert((b + "/"@)[lb] == '/');
    assert(joined(b, y)[lb] == (b + "/"@)[lb]);
    assert(s[lb] == '/');
    assert(s.len() == la + 1 + x.len());
    assert(s.len() == lb + 1 + y.len());
    if la < lb {
        assert(s[lb] == ((a + "/"@) + x)[lb]);
        assert(s[lb] == x[lb - (a + "/"@).len()]);
        assert(x[lb - la - 1] != '/');
        assert(false);
    }
    if lb < la {
        assert(s[la] == ((b + "/"@) + y)[la]);
        assert(s[la] == y[la - (b + "/"@).len()]);
        assert(y[la - lb - 1] != '/');
        assert(false);
    }
    assert(a =~= b) by {
        assert forall|i: int| 0 <= i < la implies a[i] == b[i] by {
            assert(s[i] == a[i]);
            assert(s[i] == b[i]);
        }
    }
    assert(x =~= y) by {
        assert forall|i: int| 0 <= i < x.len() implies x[i] == y[i] by {
            assert(s[la + 1 + i] == x[i]);
            assert(s[la + 1 + i] == y[i]);
        }
    }
}

/// A fragment file name holds no separator.
pub proof fn lemma_fragment_name_no_sep(i: nat)
    ensures
        no_separator(fragment_name_spec(i)),
{
    reveal_strlit("video_");
    reveal_strlit(".html");
    lemma_dec_digits(i);
    let s = fragment_name_spec(i);
    assert forall|j: int| 0 <= j < s.len() implies s[j] != '/' by {
        if j < 6 {
            assert(s[j] == "video_"@[j]);
        } else if j < 6 + dec_spec(i).len() {
            assert(s[j] == dec_spec(i)[j - 6]);
            assert(is_digit(dec_spec(i)[j - 6]));
        } else {
            assert(s[j] == ".html"@[j - 6 - dec_spec(i).len()]);
        }
    }
}

/// Fragment file names differ across positions.
pub proof fn lemma_fragment_name_injective(i: nat, j: nat)
    requires
        fragment_name_spec(i) == fragment_name_spec(j),
    ensures
        i == j,
{
    reveal_strlit("video_");
    reveal_strlit(".html");
    let di = dec_spec(i);
    let dj = dec_spec(j);
    assert(fragment_name_spec(i).len() == 6 + di.len() + 5);
    assert(fragment_name_spec(j).len() == 6 + dj.len() + 5);
    assert(di =~= dj) by {
        assert forall|t: int| 0 <= t < di.len() implies di[t] == dj[t] by {
            assert(fragment_name_spec(i)[6 + t] == di[t]);
            assert(fragment_name_spec(j)[6 + t] == dj[t]);
        }
    }
    lemma_dec_injective(i, j);
}

/// Whether a file name has the shape of a stored media fragment.
pub fn is_fragment_name(name: &str) -> (r: bool)
    ensures
        r == starts_with_seq(name@, "video_"@),
{
    starts_with_str(name, "video_")
}

} // verus!
