use crate::text::segment_is;
use vstd::prelude::*;

verus! {

/// Content types that the server can announce for a file.
#[derive(Debug, Clone, Copy, PartialEq, Eq, Structural)]
pub enum MimeType {
    TextHtml,
    TextCss,
    TextJavascript,
    ImageJpeg,
    TextPlain,
}

/// The media-type text of a content type.
pub open spec fn mime_text(m: MimeType) -> Seq<char> {
    match m {
        MimeType::TextHtml => "text/html"@,
        MimeType::TextCss => "text/css"@,
        MimeType::TextJavascript => "text/javascript"@,
        MimeType::ImageJpeg => "image/jpeg"@,
        MimeType::TextPlain => "text/plain"@,
    }
}

impl MimeType {
    /// The media-type text, as sent in a `Content-Type` header.
    pub fn as_str(&self) -> (r: &'static str)
        ensures
            r@ == mime_text(*self),
    {
        match self {
            MimeType::TextHtml => "text/html",
            MimeType::TextCss => "text/css",
            MimeType::TextJavascript => "text/javascript",
            MimeType::ImageJpeg => "image/jpeg",
            MimeType::TextPlain => "text/plain",
        }
    }
}

} // verus!

verus! {

/// The part of `s` after the last occurrence of `c`; all of `s` when `c` does not occur.
pub open spec fn after_last(s: Seq<char>, c: char) -> Seq<char>
    decreases s.len(),
{
    if s.len() == 0 {
        s
    } else if s.last() == c {
        Seq::empty()
    } else {
        after_last(s.drop_last(), c).push(s.last())
    }
}

/// The path without trailing `/` separators and trailing `.` components.
pub open spec fn trim_trailing(p: Seq<char>) -> Seq<char>
    decreases p.len(),
{
    if p.len() > 0 && p.last() == '/' {
        trim_trailing(p.drop_last())
    } else if p.len() >= 2 && p.last() == '.' && p[p.len() - 2] == '/' {
        trim_trailing(p.drop_last())
    } else {
        p
    }
}

/// The extension of a path: the text after the final `.` of its file name, the last
/// component once trailing separators and `.` components are set aside. A name whose
/// only dot is its first character, and the name `..`, have none.
pub open spec fn extension_of(path: Seq<char>) -> Option<Seq<char>> {
    let name = after_last(trim_trailing(path), '/');
    let ext = after_last(name, '.');
    if name != ".."@ && name.len() > ext.len() + 1 {
        Some(ext)
    } else {
        None
    }
}

/// The content type announced for a file with the given extension.
pub open spec fn mime_for_extension(ext: Option<Seq<char>>) -> MimeType {
    match ext {
        Some(e) => if e == "html"@ {
            MimeType::TextHtml
        } else if e == "css"@ {
            MimeType::TextCss
        } else if e == "js"@ {
            MimeType::TextJavascript
        } else if e == "jpg"@ {
            MimeType::ImageJpeg
        } else {
            MimeType::TextPlain
        },
        None => MimeType::TextPlain,
    }
}

proof fn lemma_after_last_suffix(s: Seq<char>, c: char, i: int)
    requires
        0 <= i <= s.len(),
        forall|j: int| i <= j < s.len() ==> s[j] != c,
    ensures
        after_last(s, c) == after_last(s.subrange(0, i), c) + s.subrange(i, s.len() as int),
    decreases s.len(),
{
    if i == s.len() {
        assert(s.subrange(0, i) =~= s);
        assert(s.subrange(i, s.len() as int) =~= Seq::<char>::empty());
    } else {
        lemma_after_last_suffix(s.drop_last(), c, i);
        assert(s.drop_last().subrange(0, i) =~= s.subrange(0, i));
        assert(s.subrange(i, s.len() as int) =~= s.drop_last().subrange(
            i,
            s.len() - 1,
        ).push(s.last()));
        assert(after_last(s, c) =~= after_last(s.subrange(0, i), c) + s.subrange(
            i,
            s.len() as int,
        ));
    }
}

/// Position just after the last `c` in `s`, or 0 when `c` does not occur: the
/// remainder of `s` from there is `after_last(s@, c)`.
fn start_after_last(s: &str, c: char) -> (k: usize)
    ensures
        k <= s@.len(),
        after_last(s@, c) == s@.subrange(k as int, s@.len() as int),
{
    let n = s.unicode_len();
    let mut i: usize = n;
    let mut found = false;
    while i > 0 && !found
        invariant
            i <= n,
            n == s@.len(),
            forall|j: int| i <= j < n ==> s@[j] != c,
            found ==> i > 0 && s@[i - 1] == c,
        decreases i + (if found { 0int } else { 1int }),
    {
        if s.get_char(i - 1) == c {
            found = true;
        } else {
            i = i - 1;
        }
    }
    proof {
        lemma_after_last_suffix(s@, c, i as int);
        if i > 0 {
            let p = s@.subrange(0, i as int);
            assert(p.last() == c);
        } else {
            assert(s@.subrange(0, 0) =~= Seq::<char>::empty());
        }
        assert(after_last(s@.subrange(0, i as int), c) + s@.subrange(i as int, n as int)
            =~= s@.subrange(i as int, n as int));
    }
    i
}

/// Chooses the content type of a file from the extension of its path; `text/plain`
/// where the extension is missing or not one of `html`, `css`, `js` and `jpg`.
pub fn get_mime_type(path: &str) -> (r: MimeType)
    ensures
        r == mime_for_extension(extension_of(path@)),
{
    let n = path.unicode_len();
    let mut k = n;
    assert(path@.subrange(0, n as int) =~= path@);
    while k > 0 && (path.get_char(k - 1) == '/' || (k >= 2 && path.get_char(k - 1) == '.'
        && path.get_char(k - 2) == '/'))
        invariant
            k <= n,
            n == path@.len(),
            trim_trailing(path@.subrange(0, k as int)) == trim_trailing(path@),
        decreases k,
    {
        proof {
            let p = path@.subrange(0, k as int);
            assert(p.drop_last() =~= path@.subrange(0, k - 1));
        }
        k = k - 1;
    }
    let base = path.substring_char(0, k);
    proof {
        assert(path@.subrange(0, n as int) =~= path@);
        assert(trim_trailing(base@) == base@);
    }
    let name_start = start_after_last(base, '/');
    let name = base.substring_char(name_start, k);
    let dot = start_after_last(name, '.');
    let m = name.unicode_len();
    proof {
        assert(name@ == after_last(trim_trailing(path@), '/'));
        reveal_strlit("..");
        reveal_strlit("html");
        reveal_strlit("css");
        reveal_strlit("js");
        reveal_strlit("jpg");
    }
    if dot < 2 || dot == m {
        return MimeType::TextPlain;
    }
    assert(name@ != ".."@) by {
        if name@ == ".."@ {
            assert(after_last(name@.drop_last(), '.') == Seq::<char>::empty());
        }
    }
    if segment_is(name, dot, m, "html") {
        MimeType::TextHtml
    } else if segment_is(name, dot, m, "css") {
        MimeType::TextCss
    } else if segment_is(name, dot, m, "js") {
        MimeType::TextJavascript
    } else if segment_is(name, dot, m, "jpg") {
        MimeType::ImageJpeg
    } else {
        MimeType::TextPlain
    }
}

} // verus!
