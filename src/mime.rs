use vstd::prelude::*;
use vstd::string::*;

verus! {

/// The type that a content sniffer reports for generic plain text.
pub open spec fn plain_text() -> Seq<char> {
    seq!['t', 'e', 'x', 't', '/', 'p', 'l', 'a', 'i', 'n']
}

/// The content type stored for a file: the sniffed type, except that generic
/// plain text is refined by the `css` and `js` extensions.
pub open spec fn classify_spec(sniffed: Seq<char>, ext: Option<Seq<char>>) -> Seq<char> {
    if sniffed == plain_text() && ext == Some(seq!['c', 's', 's']) {
        seq!['t', 'e', 'x', 't', '/', 'c', 's', 's']
    } else if sniffed == plain_text() && ext == Some(seq!['j', 's']) {
        seq!['a', 'p', 'p', 'l', 'i', 'c', 'a', 't', 'i', 'o', 'n', '/', 'j', 'a', 'v', 'a', 's', 'c', 'r', 'i', 'p', 't']
    } else {
        sniffed
    }
}

fn str_eq(a: &str, b: &str) -> (r: bool)
    ensures
        r == (a@ == b@),
{
    let n = a.unicode_len();
    if n != b.unicode_len() {
        return false;
    }
    let mut i: usize = 0;
    while i < n
        invariant
            n == a@.len(),
            n == b@.len(),
            i <= n,
            a@.subrange(0, i as int) == b@.subrange(0, i as int),
        decreases n - i,
    {
        if a.get_char(i) != b.get_char(i) {
            return false;
        }
        assert(a@.subrange(0, i + 1) == a@.subrange(0, i as int).push(a@[i as int]));
        assert(b@.subrange(0, i + 1) == b@.subrange(0, i as int).push(b@[i as int]));
        i = i + 1;
    }
    assert(a@ == a@.subrange(0, n as int));
    assert(b@ == b@.subrange(0, n as int));
    true
}


/// The extension of the last component of a `/`-separated path: the text after
/// its last dot, where that dot is neither absent nor the component's first
/// character.
pub open spec fn extension_spec(p: Seq<char>) -> Option<Seq<char>>
    decreases p.len(),
{
    if p.len() == 0 {
        None
    } else if p.last() == '/' {
        None
    } else if p.last() == '.' {
        if p.len() >= 2 && p[p.len() - 2] != '/' {
            Some(Seq::<char>::empty())
        } else {
            None
        }
    } else {
        match extension_spec(p.drop_last()) {
            Some(e) => Some(e.push(p.last())),
            None => None,
        }
    }
}

/// The extension of the last component of `path`, as `extension_spec` gives it.
pub fn file_extension(path: &str) -> (r: Option<String>)
    ensures
        match r {
            Some(e) => extension_spec(path@) == Some(e@),
            None => extension_spec(path@) is None,
        },
{
    let n = path.unicode_len();
    let mut i: usize = n;
    proof {
        assert(path@.subrange(0, n as int) == path@);
        assert forall|e: Seq<char>| e + path@.subrange(n as int, n as int) == e by {
            assert(e + path@.subrange(n as int, n as int) =~= e);
        }
    }
    while i > 0
        invariant
            n == path@.len(),
            i <= n,
            forall|k: int| i <= k < n ==> path@[k] != '.' && path@[k] != '/',
            forall|e: Seq<char>| extension_spec(path@.subrange(0, i as int)) == Some(e)
                ==> extension_spec(path@) == Some(e + path@.subrange(i as int, n as int)),
            extension_spec(path@.subrange(0, i as int)) is None ==> extension_spec(path@) is None,
        decreases i,
    {
        let c = path.get_char(i - 1);
        let ghost pre = path@.subrange(0, i as int);
        assert(pre.drop_last() == path@.subrange(0, i - 1));
        if c == '/' {
            return None;
        }
        if c == '.' {
            if i >= 2 && path.get_char(i - 2) != '/' {
                let e = path.substring_char(i, n);
                assert(Seq::<char>::empty() + path@.subrange(i as int, n as int) == e@);
                return Some(String::from_str(e));
            }
            return None;
        }
        proof {
            let tail = path@.subrange(i as int, n as int);
            let tail1 = path@.subrange(i - 1, n as int);
            assert forall|e: Seq<char>| extension_spec(path@.subrange(0, i - 1)) == Some(e)
                implies extension_spec(path@) == Some(e + tail1) by {
                assert(extension_spec(pre) == Some(e.push(c)));
                assert(e.push(c) + tail =~= e + tail1);
            }
        }
        i = i - 1;
    }
    None
}

/// Whether `s` is the plain-text type.
fn is_plain_text(s: &str) -> (r: bool)
    ensures
        r == (s@ == plain_text()),
{
    proof {
        reveal_strlit("text/plain");
    }
    let r = str_eq(s, "text/plain");
    assert("text/plain"@ =~= plain_text());
    r
}

/// Whether `e` holds the extension `want`.
fn is_extension(e: &Option<String>, want: &str) -> (r: bool)
    ensures
        r == (e is Some && e->0@ == want@),
{
    match e {
        Some(s) => str_eq(s.as_str(), want),
        None => false,
    }
}

/// The content type to store for a file at `path` whose bytes sniffed as
/// `sniffed`: generic plain text becomes `text/css` for a `css` extension and
/// `application/javascript` for a `js` one; any other type is kept as it is.
pub fn classify_mime(sniffed: &str, path: &str) -> (r: String)
    ensures
        r@ == classify_spec(sniffed@, extension_spec(path@)),
{
    let ext = file_extension(path);
    proof {
        reveal_strlit("css");
        reveal_strlit("js");
        reveal_strlit("text/css");
        reveal_strlit("application/javascript");
    }
    assert("css"@ =~= seq!['c', 's', 's']);
    assert("js"@ =~= seq!['j', 's']);
    if is_plain_text(sniffed) {
        if is_extension(&ext, "css") {
            let r = String::from_str("text/css");
            assert(r@ =~= seq!['t', 'e', 'x', 't', '/', 'c', 's', 's']);
            return r;
        } else if is_extension(&ext, "js") {
            let r = String::from_str("application/javascript");
            assert(r@ =~= seq!['a', 'p', 'p', 'l', 'i', 'c', 'a', 't', 'i', 'o', 'n', '/', 'j', 'a', 'v', 'a', 's', 'c', 'r', 'i', 'p', 't']);
            return r;
        }
    }
    String::from_str(sniffed)
}

} // verus!
