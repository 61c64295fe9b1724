//! The link extractor: a pure textual scan of a page for `href="..."` and
//! `src="..."` attribute occurrences (double-quoted, case-sensitive, no markup
//! structure validated), each captured value resolved against the page's base
//! address.

use vstd::prelude::*;
use vstd::string::StrSliceExecFns;

use crate::urls::{join_url, parse_url, resolve_link};
use crate::views_of;

verus! {

/// The six characters `href="` stand at position `i` of `t`.
pub open spec fn href_at(t: Seq<char>, i: int) -> bool {
    &&& 0 <= i
    &&& i + 6 <= t.len()
    &&& t[i] == 'h'
    &&& t[i + 1] == 'r'
    &&& t[i + 2] == 'e'
    &&& t[i + 3] == 'f'
    &&& t[i + 4] == '='
    &&& t[i + 5] == '"'
}

/// The five characters `src="` stand at position `i` of `t`.
pub open spec fn src_at(t: Seq<char>, i: int) -> bool {
    &&& 0 <= i
    &&& i + 5 <= t.len()
    &&& t[i] == 's'
    &&& t[i + 1] == 'r'
    &&& t[i + 2] == 'c'
    &&& t[i + 3] == '='
    &&& t[i + 4] == '"'
}

/// The length of the attribute prefix (`href="` or `src="`) at `i`, if one
/// stands there.
pub open spec fn tag_len_at(t: Seq<char>, i: int) -> Option<int> {
    if href_at(t, i) {
        Some(6 as int)
    } else if src_at(t, i) {
        Some(5 as int)
    } else {
        None
    }
}

/// The index of the first double quote at or after `s` in `t`, if any.
pub open spec fn quote_from(t: Seq<char>, s: int) -> Option<int>
    decreases t.len() - s,
{
    if s < 0 || s >= t.len() {
        None
    } else if t[s] == '"' {
        Some(s)
    } else {
        quote_from(t, s + 1)
    }
}

/// `quote_from(t, s)` finds exactly the first double quote at or after `s`.
pub proof fn lemma_quote_from(t: Seq<char>, s: int)
    requires
        0 <= s,
    ensures
        (match quote_from(t, s) {
            Some(j) => {
                &&& s <= j < t.len()
                &&& t[j] == '"'
                &&& forall|k: int| s <= k < j ==> t[k] != '"'
            },
            None => forall|k: int| s <= k < t.len() ==> t[k] != '"',
        }),
    decreases t.len() - s,
{
    if s < t.len() && t[s] != '"' {
        lemma_quote_from(t, s + 1);
    }
}

/// The match of the scan at position `i`: the captured attribute value and the
/// position at which the scan resumes.  There is a match exactly when an
/// attribute prefix stands at `i` and a closing double quote follows it with at
/// least one character in between; the value is everything in between.
pub open spec fn capture_at(t: Seq<char>, i: int) -> Option<(Seq<char>, int)> {
    match tag_len_at(t, i) {
        Some(l) => {
            let s = i + l;
            match quote_from(t, s) {
                Some(j) => if j > s {
                    Some((t.subrange(s, j), j + 1))
                } else {
                    None
                },
                None => None,
            }
        },
        None => None,
    }
}

/// The ordered captured values of the scan of `t` from position `i` on: at
/// each position the scan either completes a match and resumes right after its
/// closing quote, or moves one character forward.
pub open spec fn captures_from(t: Seq<char>, i: int) -> Seq<Seq<char>>
    decreases t.len() - i,
    via captures_from_decreases
{
    if i < 0 || i >= t.len() {
        Seq::empty()
    } else {
        match capture_at(t, i) {
            Some(cap) => seq![cap.0] + captures_from(t, cap.1),
            None => captures_from(t, i + 1),
        }
    }
}

#[via_fn]
proof fn captures_from_decreases(t: Seq<char>, i: int) {
    if 0 <= i < t.len() {
        match tag_len_at(t, i) {
            Some(l) => lemma_quote_from(t, i + l),
            None => {},
        }
    }
}

/// The addresses a page yields: each captured value resolved against the base
/// address, unresolvable values silently discarded, first-seen order kept,
/// duplicates kept.
pub open spec fn resolved_links(base: Seq<char>, caps: Seq<Seq<char>>) -> Seq<Seq<char>>
    decreases caps.len(),
{
    if caps.len() == 0 {
        Seq::empty()
    } else {
        match resolve_link(base, caps[0]) {
            Some(u) => seq![u] + resolved_links(base, caps.drop_first()),
            None => resolved_links(base, caps.drop_first()),
        }
    }
}

/// Everything `parse` extracts from a page text.
pub open spec fn extracted(base: Seq<char>, text: Seq<char>) -> Seq<Seq<char>> {
    resolved_links(base, captures_from(text, 0))
}

/// The length of the attribute prefix at character position `i` of `data`, or
/// 0 when none stands there.
fn tag_len_here(data: &str, n: usize, i: usize) -> (l: usize)
    requires
        n == data@.len(),
        i < n,
    ensures
        (match tag_len_at(data@, i as int) {
            Some(t) => l == t,
            None => l == 0,
        }),
{
    if n - i >= 6
        && data.get_char(i) == 'h'
        && data.get_char(i + 1) == 'r'
        && data.get_char(i + 2) == 'e'
        && data.get_char(i + 3) == 'f'
        && data.get_char(i + 4) == '='
        && data.get_char(i + 5) == '"'
    {
        6
    } else if n - i >= 5
        && data.get_char(i) == 's'
        && data.get_char(i + 1) == 'r'
        && data.get_char(i + 2) == 'c'
        && data.get_char(i + 3) == '='
        && data.get_char(i + 4) == '"'
    {
        5
    } else {
        0
    }
}

/// Scan `data` and collect the captured attribute values, in order.
pub fn find_captures(data: &str) -> (caps: Vec<String>)
    ensures
        views_of(caps@) == captures_from(data@, 0),
{
    let ghost t = data@;
    let n = data.unicode_len();
    let mut caps: Vec<String> = Vec::new();
    let mut i: usize = 0;
    while i < n
        invariant
            n == t.len(),
            t == data@,
            i <= n,
            captures_from(t, 0) == views_of(caps@) + captures_from(t, i as int),
        decreases n - i,
    {
        let tag_len = tag_len_here(data, n, i);
        if tag_len > 0 {
            let start = i + tag_len;
            let mut j = start;
            while j < n && data.get_char(j) != '"'
                invariant
                    n == t.len(),
                    t == data@,
                    start <= j <= n,
                    forall|k: int| start <= k < j ==> t[k] != '"',
                decreases n - j,
            {
                j = j + 1;
            }
            proof {
                lemma_quote_from(t, start as int);
            }
            if j < n && j > start {
                let ghost caps_before = caps@;
                let val = data.substring_char(start, j).to_owned();
                caps.push(val);
                proof {
                    assert(quote_from(t, start as int) == Some(j as int));
                    assert(capture_at(t, i as int)
                        == Some((t.subrange(start as int, j as int), j as int + 1)));
                    assert(captures_from(t, i as int)
                        == seq![t.subrange(start as int, j as int)]
                            + captures_from(t, j as int + 1));
                    assert(views_of(caps@) =~= views_of(caps_before).push(val@));
                    assert(views_of(caps_before) + captures_from(t, i as int)
                        =~= views_of(caps@) + captures_from(t, j as int + 1));
                }
                i = j + 1;
            } else {
                proof {
                    assert(capture_at(t, i as int) is None);
                    assert(captures_from(t, i as int) == captures_from(t, i as int + 1));
                }
                i = i + 1;
            }
        } else {
            proof {
                assert(capture_at(t, i as int) is None);
                assert(captures_from(t, i as int) == captures_from(t, i as int + 1));
            }
            i = i + 1;
        }
    }
    proof {
        assert(views_of(caps@) + captures_from(t, n as int) =~= views_of(caps@));
    }
    caps
}

/// The link extractor.  It is pure and stateless but for the base address it
/// was created with.
pub struct LinkParser {
    base_url: String,
}

impl LinkParser {
    /// The base address against which relative links are resolved.
    pub closed spec fn base(self) -> Seq<char> {
        self.base_url@
    }

    pub fn new(url: String) -> (p: LinkParser)
        ensures
            p.base() == url@,
    {
        LinkParser { base_url: url }
    }

    /// Scan `data` for `href="..."` and `src="..."` occurrences and return the
    /// captured values resolved against the base address: an absolute address
    /// is kept as-is, a relative one is resolved against the base, anything
    /// else is silently discarded.  First-seen order is preserved and
    /// duplicates are kept.
    pub fn parse(self, data: &str) -> (links: Vec<String>)
        ensures
            views_of(links@) == extracted(self.base(), data@),
    {
        let caps = find_captures(data);
        let ghost cs = views_of(caps@);
        let mut links: Vec<String> = Vec::new();
        let mut k: usize = 0;
        proof {
            assert(views_of(links@) + cs.skip(0) =~= cs);
        }
        while k < caps.len()
            invariant
                cs == views_of(caps@),
                k <= caps.len(),
                resolved_links(self.base(), cs)
                    == views_of(links@) + resolved_links(self.base(), cs.skip(k as int)),
            decreases caps.len() - k,
        {
            let ghost links_before = links@;
            let resolved = match parse_url(caps[k].as_str()) {
                Some(u) => Some(u),
                None => join_url(self.base_url.as_str(), caps[k].as_str()),
            };
            proof {
                assert(cs.skip(k as int)[0] == cs[k as int]);
                assert(cs.skip(k as int).drop_first() =~= cs.skip(k as int + 1));
            }
            match resolved {
                Some(u) => {
                    let ghost uv = u@;
                    links.push(u);
                    proof {
                        assert(views_of(links@) =~= views_of(links_before).push(uv));
                        assert(views_of(links_before) + resolved_links(self.base(), cs.skip(k as int))
                            =~= views_of(links@) + resolved_links(self.base(), cs.skip(k as int + 1)));
                    }
                },
                None => {
                    proof {
                        assert(resolved_links(self.base(), cs.skip(k as int))
                            == resolved_links(self.base(), cs.skip(k as int + 1)));
                    }
                },
            }
            k = k + 1;
        }
        proof {
            assert(cs.skip(caps.len() as int) =~= Seq::<Seq<char>>::empty());
            assert(views_of(links@) + resolved_links(self.base(), cs.skip(caps.len() as int))
                =~= views_of(links@));
        }
        links
    }
}

} // verus!
