use vstd::prelude::*;

verus! {

/// What `str::trim` returns for a text.
pub uninterp spec fn trim_of(s: Seq<char>) -> Seq<char>;

/// What `str::to_lowercase` returns for a text.
pub uninterp spec fn lower_of(s: Seq<char>) -> Seq<char>;

/// Relies on `str::trim`: the text without its leading and trailing whitespace,
/// which depends on the characters alone.
#[verifier::external_body]
fn trim_text(s: &str) -> (r: &str)
    ensures
        r@ == trim_of(s@),
{
    s.trim()
}

/// Relies on `str::to_lowercase`: the lowercase mapping of the text, which
/// depends on the characters alone.
#[verifier::external_body]
fn lowercase_text(s: &str) -> (r: String)
    ensures
        r@ == lower_of(s@),
{
    s.to_lowercase()
}

/// How a raw argument is read: trimmed, then lowercased.
pub open spec fn normalized(s: Seq<char>) -> Seq<char> {
    lower_of(trim_of(s))
}

/// Trims and lowercases a raw argument.
pub fn normalize_arg(arg: &str) -> (r: String)
    ensures
        r@ == normalized(arg@),
{
    lowercase_text(trim_text(arg))
}

/// Whether a text is read as a flag: it starts with a dash.
pub open spec fn is_flag_text(s: Seq<char>) -> bool {
    s.len() > 0 && s[0] == '-'
}

pub fn starts_with_dash(s: &str) -> (r: bool)
    ensures
        r == is_flag_text(s@),
{
    s.unicode_len() > 0 && s.get_char(0) == '-'
}

/// The text after the last `/` of `s`, or all of `s` when it holds none.
pub open spec fn last_segment(s: Seq<char>) -> Seq<char>
    decreases s.len(),
{
    if s.len() == 0 {
        s
    } else if s.last() == '/' {
        Seq::empty()
    } else {
        last_segment(s.drop_last()).push(s.last())
    }
}

/// The name under which the body fetched from `url` is saved: its last
/// `/`-delimited segment, or `file-[<url>]` when that segment is empty.
pub open spec fn file_name_for(url: Seq<char>) -> Seq<char> {
    if last_segment(url).len() == 0 {
        "file-["@ + url + "]"@
    } else {
        last_segment(url)
    }
}

/// The destination file name for a resolved URL.
pub fn destination_file_name(url: &str) -> (r: String)
    ensures
        r@ == file_name_for(url@),
{
    let n = url.unicode_len();
    let mut j: usize = n;
    assert(url@.subrange(0, n as int) =~= url@);
    assert(url@.subrange(n as int, n as int) =~= Seq::<char>::empty());
    while j > 0 && url.get_char(j - 1) != '/'
        invariant
            j <= n,
            n == url@.len(),
            last_segment(url@) == last_segment(url@.subrange(0, j as int)) + url@.subrange(
                j as int,
                n as int,
            ),
        decreases j,
    {
        let ghost prefix = url@.subrange(0, j as int);
        assert(prefix.drop_last() =~= url@.subrange(0, j - 1));
        let ghost rest = last_segment(url@.subrange(0, j - 1));
        assert(last_segment(prefix) == rest.push(url@[j - 1]));
        assert(rest.push(url@[j - 1]) + url@.subrange(j as int, n as int) =~= rest
            + url@.subrange(j - 1, n as int));
        j = j - 1;
    }
    assert(last_segment(url@.subrange(0, j as int)).len() == 0);
    let segment = url.substring_char(j, n);
    if j == n {
        let mut name = String::from_str("file-[");
        name.append(url);
        name.append("]");
        name
    } else {
        String::from_str(segment)
    }
}

} // verus!
