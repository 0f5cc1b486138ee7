use vstd::prelude::*;

verus! {

/// The closed set of resource categories a page can reference. The kind
/// decides how the payload is fetched and later interpreted: binary for
/// `Image`, decoded text for `Css` and `Javascript`.
#[derive(Clone, Copy, Debug, PartialEq, Eq, Structural)]
pub enum ResourceKind {
    Image,
    Css,
    Javascript,
}

/// Characters that may end a tag name, so that `<imgx` is not taken
/// for an image tag.
pub open spec fn is_name_end(c: char) -> bool {
    c == ' ' || c == '\t' || c == '\n' || c == '\r' || c == '/' || c == '>'
}

/// `pat` occurs in `s` starting exactly at position `i`.
pub open spec fn matches_at(s: Seq<char>, i: int, pat: Seq<char>) -> bool {
    &&& 0 <= i
    &&& i + pat.len() <= s.len()
    &&& forall|k: int| 0 <= k < pat.len() ==> s[i + k] == pat[k]
}

/// The first position at or after `i` where `pat` occurs in `s`.
pub open spec fn find_from(s: Seq<char>, i: int, pat: Seq<char>) -> Option<int>
    decreases s.len() - i,
{
    if i + pat.len() > s.len() {
        None
    } else if matches_at(s, i, pat) {
        Some(i)
    } else {
        find_from(s, i + 1, pat)
    }
}

pub proof fn lemma_find_from(s: Seq<char>, i: int, pat: Seq<char>)
    ensures
        match find_from(s, i, pat) {
            Some(j) => i <= j && j + pat.len() <= s.len() && matches_at(s, j, pat) && (forall|
                k: int,
            |
                i <= k < j ==> !matches_at(s, k, pat)),
            None => forall|k: int| i <= k ==> !matches_at(s, k, pat),
        },
    decreases s.len() - i,
{
    if i + pat.len() > s.len() {
        assert forall|k: int| i <= k implies !matches_at(s, k, pat) by {
            assert(k + pat.len() > s.len());
        }
    } else if matches_at(s, i, pat) {
    } else {
        lemma_find_from(s, i + 1, pat);
    }
}

pub open spec fn pat_img() -> Seq<char> {
    seq!['<', 'i', 'm', 'g']
}

pub open spec fn pat_link() -> Seq<char> {
    seq!['<', 'l', 'i', 'n', 'k']
}

pub open spec fn pat_script() -> Seq<char> {
    seq!['<', 's', 'c', 'r', 'i', 'p', 't']
}

pub open spec fn pat_src() -> Seq<char> {
    seq![' ', 's', 'r', 'c', '=', '"']
}

pub open spec fn pat_href() -> Seq<char> {
    seq![' ', 'h', 'r', 'e', 'f', '=', '"']
}

pub open spec fn pat_rel_stylesheet() -> Seq<char> {
    seq![' ', 'r', 'e', 'l', '=', '"', 's', 't', 'y', 'l', 'e', 's', 'h', 'e', 'e', 't', '"']
}

pub open spec fn pat_gt() -> Seq<char> {
    seq!['>']
}

/// The opening text that announces a resource-bearing tag of each kind:
/// `<img` loads an image, `<link` a stylesheet, `<script` a script.
pub open spec fn tag_pattern(k: ResourceKind) -> Seq<char> {
    match k {
        ResourceKind::Image => pat_img(),
        ResourceKind::Css => pat_link(),
        ResourceKind::Javascript => pat_script(),
    }
}

/// A tag of kind `k` opens at position `i`: its name occurs there and is
/// properly delimited.
pub open spec fn tag_at(s: Seq<char>, i: int, k: ResourceKind) -> bool {
    &&& matches_at(s, i, tag_pattern(k))
    &&& i + tag_pattern(k).len() < s.len()
    &&& is_name_end(s[i + tag_pattern(k).len()])
}

/// The kind of tag, if any, that opens at position `i`.
pub open spec fn some_tag_at(s: Seq<char>, i: int) -> Option<ResourceKind> {
    if tag_at(s, i, ResourceKind::Image) {
        Some(ResourceKind::Image)
    } else if tag_at(s, i, ResourceKind::Css) {
        Some(ResourceKind::Css)
    } else if tag_at(s, i, ResourceKind::Javascript) {
        Some(ResourceKind::Javascript)
    } else {
        None
    }
}

/// The value of the quoted attribute introduced by `pat` inside the tag
/// text `s[lo..hi]`: the characters between `pat` and the next quote,
/// when both lie before `hi`.
pub open spec fn attr_value(s: Seq<char>, lo: int, hi: int, pat: Seq<char>) -> Option<Seq<char>> {
    match find_from(s, lo, pat) {
        None => None,
        Some(a) => if a >= hi {
            None
        } else {
            match find_from(s, a + pat.len(), seq!['"']) {
                None => None,
                Some(e) => if e >= hi {
                    None
                } else {
                    Some(s.subrange(a + pat.len(), e))
                },
            }
        },
    }
}

/// The reference, if any, carried by the tag of kind `k` spanning
/// `s[lo..hi]`: the `src` value for images and scripts; the `href` value
/// for links that declare `rel="stylesheet"`.
pub open spec fn tag_ref(s: Seq<char>, lo: int, hi: int, k: ResourceKind) -> Option<Seq<char>> {
    match k {
        ResourceKind::Image => attr_value(s, lo, hi, pat_src()),
        ResourceKind::Javascript => attr_value(s, lo, hi, pat_src()),
        ResourceKind::Css => {
            let rel = match find_from(s, lo, pat_rel_stylesheet()) {
                Some(rp) => rp < hi,
                None => false,
            };
            if rel {
                attr_value(s, lo, hi, pat_href())
            } else {
                None
            }
        },
    }
}

/// The raw references of the markup from position `i` on, in document
/// order, still relative and with duplicates: at each recognized tag the
/// scan emits the tag's reference (if it carries one) and resumes after
/// the closing `>`; a recognized tag that never closes makes the whole
/// document malformed (`None`).
pub open spec fn scan(s: Seq<char>, i: int) -> Option<Seq<(Seq<char>, ResourceKind)>>
    decreases s.len() - i,
    via scan_decreases
{
    if i < 0 || i >= s.len() {
        Some(Seq::empty())
    } else {
        match some_tag_at(s, i) {
            None => scan(s, i + 1),
            Some(k) => match find_from(s, i, pat_gt()) {
                None => None,
                Some(j) => match scan(s, j + 1) {
                    None => None,
                    Some(rest) => Some(
                        match tag_ref(s, i, j, k) {
                            Some(u) => seq![(u, k)] + rest,
                            None => rest,
                        },
                    ),
                },
            },
        }
    }
}

#[via_fn]
proof fn scan_decreases(s: Seq<char>, i: int) {
    if 0 <= i < s.len() && some_tag_at(s, i) is Some {
        lemma_find_from(s, i, pat_gt());
    }
}

/// The views of raw scanner output, pairing each reference text with its kind.
pub open spec fn raws_view(v: Seq<(String, ResourceKind)>) -> Seq<(Seq<char>, ResourceKind)> {
    v.map_values(|p: (String, ResourceKind)| (p.0@, p.1))
}

fn is_name_end_exec(c: char) -> (b: bool)
    ensures
        b == is_name_end(c),
{
    c == ' ' || c == '\t' || c == '\n' || c == '\r' || c == '/' || c == '>'
}

fn matches_at_exec(s: &str, n: usize, i: usize, pat: &str, m: usize) -> (b: bool)
    requires
        n == s@.len(),
        m == pat@.len(),
    ensures
        b == matches_at(s@, i as int, pat@),
{
    if m > n || i > n - m {
        assert(i + m > n);
        return false;
    }
    let mut k: usize = 0;
    while k < m
        invariant
            n == s@.len(),
            m == pat@.len(),
            i + m <= n,
            k <= m,
            forall|t: int| 0 <= t < k ==> s@[i + t] == pat@[t],
        decreases m - k,
    {
        if s.get_char(i + k) != pat.get_char(k) {
            assert(s@[i + k as int] != pat@[k as int]);
            return false;
        }
        k += 1;
    }
    true
}

fn find_from_exec(s: &str, n: usize, start: usize, pat: &str, m: usize) -> (r: Option<usize>)
    requires
        n == s@.len(),
        m == pat@.len(),
        1 <= m,
        start <= n,
    ensures
        match r {
            Some(j) => start <= j && j <= n && find_from(s@, start as int, pat@) == Some(
                j as int,
            ),
            None => find_from(s@, start as int, pat@) is None,
        },
{
    let mut k: usize = start;
    loop
        invariant
            n == s@.len(),
            m == pat@.len(),
            1 <= m,
            start <= k <= n,
            find_from(s@, start as int, pat@) == find_from(s@, k as int, pat@),
        decreases n - k,
    {
        if m > n || k > n - m {
            assert(k + m > n);
            assert(find_from(s@, k as int, pat@) is None);
            return None;
        }
        if matches_at_exec(s, n, k, pat, m) {
            assert(find_from(s@, k as int, pat@) == Some(k as int));
            return Some(k);
        }
        assert(find_from(s@, k as int, pat@) == find_from(s@, k as int + 1, pat@));
        k += 1;
    }
}

fn tag_open_at(s: &str, n: usize, i: usize, pat: &str, m: usize) -> (b: bool)
    requires
        n == s@.len(),
        m == pat@.len(),
    ensures
        b == (matches_at(s@, i as int, pat@) && i + m < s@.len() && is_name_end(
            s@[i as int + m],
        )),
{
    if !matches_at_exec(s, n, i, pat, m) {
        return false;
    }
    if i + m >= n {
        return false;
    }
    let c = s.get_char(i + m);
    is_name_end_exec(c)
}

fn tag_at_exec(s: &str, n: usize, i: usize) -> (r: Option<ResourceKind>)
    requires
        n == s@.len(),
    ensures
        r == some_tag_at(s@, i as int),
{
    proof {
        reveal_strlit("<img");
        reveal_strlit("<link");
        reveal_strlit("<script");
        assert(("<img")@ =~= pat_img());
        assert(("<link")@ =~= pat_link());
        assert(("<script")@ =~= pat_script());
    }
    if tag_open_at(s, n, i, "<img", 4) {
        Some(ResourceKind::Image)
    } else if tag_open_at(s, n, i, "<link", 5) {
        Some(ResourceKind::Css)
    } else if tag_open_at(s, n, i, "<script", 7) {
        Some(ResourceKind::Javascript)
    } else {
        None
    }
}

fn attr_value_exec(s: &str, n: usize, lo: usize, hi: usize, pat: &str, m: usize) -> (r: Option<
    String,
>)
    requires
        n == s@.len(),
        m == pat@.len(),
        1 <= m,
        lo <= n,
        hi <= n,
    ensures
        match r {
            Some(u) => attr_value(s@, lo as int, hi as int, pat@) == Some(u@),
            None => attr_value(s@, lo as int, hi as int, pat@) is None,
        },
{
    proof {
        reveal_strlit("\"");
        assert(("\"")@ =~= seq!['"']);
    }
    match find_from_exec(s, n, lo, pat, m) {
        None => None,
        Some(a) => {
            if a >= hi {
                return None;
            }
            proof {
                lemma_find_from(s@, lo as int, pat@);
            }
            match find_from_exec(s, n, a + m, "\"", 1) {
                None => None,
                Some(e) => {
                    if e >= hi {
                        None
                    } else {
                        proof {
                            lemma_find_from(s@, a + m as int, seq!['"']);
                        }
                        Some(s.substring_char(a + m, e).to_owned())
                    }
                },
            }
        },
    }
}

fn tag_ref_exec(s: &str, n: usize, lo: usize, hi: usize, k: ResourceKind) -> (r: Option<String>)
    requires
        n == s@.len(),
        lo <= n,
        hi <= n,
    ensures
        match r {
            Some(u) => tag_ref(s@, lo as int, hi as int, k) == Some(u@),
            None => tag_ref(s@, lo as int, hi as int, k) is None,
        },
{
    proof {
        reveal_strlit(" src=\"");
        reveal_strlit(" href=\"");
        reveal_strlit(" rel=\"stylesheet\"");
        assert((" src=\"")@ =~= pat_src());
        assert((" href=\"")@ =~= pat_href());
        assert((" rel=\"stylesheet\"")@ =~= pat_rel_stylesheet());
    }
    match k {
        ResourceKind::Image => attr_value_exec(s, n, lo, hi, " src=\"", 6),
        ResourceKind::Javascript => attr_value_exec(s, n, lo, hi, " src=\"", 6),
        ResourceKind::Css => {
            let rel = match find_from_exec(s, n, lo, " rel=\"stylesheet\"", 17) {
                Some(rp) => rp < hi,
                None => false,
            };
            if rel {
                attr_value_exec(s, n, lo, hi, " href=\"", 7)
            } else {
                None
            }
        },
    }
}

/// Scans the whole markup for raw resource references, in document order,
/// duplicates kept and reference texts still unresolved. `None` reports
/// markup that cannot be read through: a recognized tag that never closes.
pub(crate) fn scan_exec(s: &str) -> (r: Option<Vec<(String, ResourceKind)>>)
    ensures
        match r {
            Some(v) => scan(s@, 0) == Some(raws_view(v@)),
            None => scan(s@, 0) is None,
        },
{
    proof {
        reveal_strlit(">");
        assert((">")@ =~= pat_gt());
    }
    let n = s.unicode_len();
    let mut acc: Vec<(String, ResourceKind)> = Vec::new();
    let mut i: usize = 0;
    while i < n
        invariant
            n == s@.len(),
            i <= n,
            match scan(s@, i as int) {
                Some(rest) => scan(s@, 0) == Some(raws_view(acc@) + rest),
                None => scan(s@, 0) is None,
            },
        decreases n - i,
    {
        proof {
            reveal_strlit(">");
            assert((">")@ =~= pat_gt());
        }
        match tag_at_exec(s, n, i) {
            None => {
                assert(scan(s@, i as int) == scan(s@, i as int + 1));
                i += 1;
            },
            Some(k) => {
                match find_from_exec(s, n, i, ">", 1) {
                    None => {
                        assert(scan(s@, i as int) is None);
                        return None;
                    },
                    Some(j) => {
                        proof {
                            lemma_find_from(s@, i as int, pat_gt());
                        }
                        let item = tag_ref_exec(s, n, i, j, k);
                        proof {
                            assert(scan(s@, i as int) == (match scan(s@, j + 1 as int) {
                                None => None::<Seq<(Seq<char>, ResourceKind)>>,
                                Some(rest) => Some(
                                    match tag_ref(s@, i as int, j as int, k) {
                                        Some(u) => seq![(u, k)] + rest,
                                        None => rest,
                                    },
                                ),
                            }));
                        }
                        let ghost old_acc = acc@;
                        match item {
                            Some(u) => {
                                let ghost uview = u@;
                                acc.push((u, k));
                                proof {
                                    match scan(s@, j + 1 as int) {
                                        Some(rest) => {
                                            assert(raws_view(acc@) =~= raws_view(old_acc).push(
                                                (uview, k),
                                            ));
                                            assert(raws_view(old_acc) + (seq![(uview, k)] + rest)
                                                =~= raws_view(old_acc).push((uview, k)) + rest);
                                        },
                                        None => {},
                                    }
                                }
                            },
                            None => {},
                        }
                        i = j + 1;
                    },
                }
            },
        }
    }
    assert(scan(s@, i as int) == Some(Seq::<(Seq<char>, ResourceKind)>::empty()));
    assert(raws_view(acc@) + Seq::<(Seq<char>, ResourceKind)>::empty() =~= raws_view(acc@));
    Some(acc)
}

} // verus!
