use vstd::prelude::*;

verus! {

/// `dir` joined with `name` the way `PathBuf::push` joins them: an absolute
/// `name` replaces `dir`, and one separator stands between the two.
pub open spec fn join_path(dir: Seq<char>, name: Seq<char>) -> Seq<char> {
    if name.len() > 0 && name[0] == '/' {
        name
    } else if dir.len() == 0 || dir.last() == '/' {
        dir + name
    } else {
        dir + seq!['/'] + name
    }
}

/// A file name whose extension is `wav`: at least one character before a
/// final `.wav` (a name such as `.wav` is hidden and has no extension).
pub open spec fn is_recording_name(n: Seq<char>) -> bool {
    &&& n.len() >= 5
    &&& n[n.len() - 4] == '.'
    &&& n[n.len() - 3] == 'w'
    &&& n[n.len() - 2] == 'a'
    &&& n[n.len() - 1] == 'v'
}

/// The final component of a path, as `Path::file_name` gives it.
pub uninterp spec fn file_name_of(p: Seq<char>) -> Option<Seq<char>>;

/// A file name with its extension replaced, as `Path::with_extension` gives it.
pub uninterp spec fn with_extension_of(n: Seq<char>, ext: Seq<char>) -> Seq<char>;

/// Relies on `std::path::Path::file_name`: the last normal component of the
/// path, or `None` where the path ends in `..` or is a root.
#[verifier::external_body]
pub(crate) fn file_name(p: &str) -> (r: Option<String>)
    ensures
        match r {
            Some(n) => file_name_of(p@) == Some(n@),
            None => file_name_of(p@) is None,
        },
{
    std::path::Path::new(p).file_name().map(|f| f.to_string_lossy().into_owned())
}

/// Relies on `std::path::Path::with_extension`: the name with its extension
/// replaced by `ext`, or with `ext` added where it has none. It panics on an
/// extension that holds a path separator, which `requires` leaves out.
#[verifier::external_body]
pub(crate) fn with_extension(n: &str, ext: &str) -> (r: String)
    requires
        forall|i: int| 0 <= i < ext@.len() ==> ext@[i] != '/',
    ensures
        r@ == with_extension_of(n@, ext@),
{
    std::path::Path::new(n).with_extension(ext).to_string_lossy().into_owned()
}

/// Joins a directory and a name (see `join_path`).
pub fn join(dir: &str, name: &str) -> (r: String)
    ensures
        r@ == join_path(dir@, name@),
{
    proof {
        reveal_strlit("/");
        assert("/"@ =~= seq!['/']);
    }
    let nlen = name.unicode_len();
    if nlen > 0 && name.get_char(0) == '/' {
        return String::from_str(name);
    }
    let dlen = dir.unicode_len();
    let mut r = String::from_str(dir);
    if dlen > 0 && dir.get_char(dlen - 1) != '/' {
        r.append("/");
    }
    r.append(name);
    r
}

/// Whether `n` names a recording (see `is_recording_name`).
pub fn has_recording_extension(n: &str) -> (r: bool)
    ensures
        r == is_recording_name(n@),
{
    let len = n.unicode_len();
    if len < 5 {
        return false;
    }
    n.get_char(len - 4) == '.' && n.get_char(len - 3) == 'w' && n.get_char(len - 2) == 'a'
        && n.get_char(len - 1) == 'v'
}

/// `a` comes strictly before `b` in the lexicographic order of characters.
pub open spec fn lex_lt(a: Seq<char>, b: Seq<char>) -> bool
    decreases a.len(),
{
    if a.len() == 0 {
        b.len() > 0
    } else if b.len() == 0 {
        false
    } else if a[0] != b[0] {
        (a[0] as u32) < (b[0] as u32)
    } else {
        lex_lt(a.drop_first(), b.drop_first())
    }
}

pub proof fn lemma_lex_lt_irreflexive(a: Seq<char>)
    ensures
        !lex_lt(a, a),
    decreases a.len(),
{
    if a.len() > 0 {
        lemma_lex_lt_irreflexive(a.drop_first());
    }
}

pub proof fn lemma_lex_lt_transitive(a: Seq<char>, b: Seq<char>, c: Seq<char>)
    requires
        lex_lt(a, b),
        lex_lt(b, c),
    ensures
        lex_lt(a, c),
    decreases a.len(),
{
    if a.len() > 0 && b.len() > 0 && c.len() > 0 && a[0] == b[0] && b[0] == c[0] {
        lemma_lex_lt_transitive(a.drop_first(), b.drop_first(), c.drop_first());
    }
}

pub proof fn lemma_lex_lt_asymmetric(a: Seq<char>, b: Seq<char>)
    ensures
        !(lex_lt(a, b) && lex_lt(b, a)),
{
    if lex_lt(a, b) && lex_lt(b, a) {
        lemma_lex_lt_transitive(a, b, a);
        lemma_lex_lt_irreflexive(a);
    }
}

/// Whether `a` comes strictly before `b` (see `lex_lt`).
pub fn lex_less(a: &str, b: &str) -> (r: bool)
    ensures
        r == lex_lt(a@, b@),
{
    let alen = a.unicode_len();
    let blen = b.unicode_len();
    let mut i: usize = 0;
    assert(a@.skip(0) =~= a@);
    assert(b@.skip(0) =~= b@);
    while i < alen && i < blen
        invariant
            alen == a@.len(),
            blen == b@.len(),
            i <= alen,
            i <= blen,
            lex_lt(a@, b@) == lex_lt(a@.skip(i as int), b@.skip(i as int)),
        decreases alen - i,
    {
        let x = a.get_char(i);
        let y = b.get_char(i);
        if x != y {
            return (x as u32) < (y as u32);
        }
        assert(a@.skip(i as int).drop_first() =~= a@.skip(i + 1));
        assert(b@.skip(i as int).drop_first() =~= b@.skip(i + 1));
        i += 1;
    }
    i < blen && i == alen
}

} // verus!
