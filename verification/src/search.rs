//! A small verified line-search utility: split a text into its lines and
//! return the lines that contain a query string, case-sensitively or not.

use vstd::prelude::*;

verus! {

/// A search configuration: the query, the name of the file whose contents
/// are searched, and whether the search respects letter case.  The host
/// program fills it from its arguments and environment and reads the file;
/// the search itself works on the contents alone.
pub struct Config {
    pub query: String,
    pub filename: String,
    pub case_sensitive: bool,
}

/// The smallest index of a line feed in `s`, or `s.len()` if there is
/// none.
pub open spec fn first_nl(s: Seq<char>) -> int
    decreases s.len(),
{
    if s.len() == 0 {
        0
    } else if s[0] == '\n' {
        0
    } else {
        1 + first_nl(s.drop_first())
    }
}

/// A carriage return at the end of a line-feed-terminated segment belongs
/// to the terminator and is dropped with it.
pub open spec fn strip_cr(seg: Seq<char>) -> Seq<char> {
    if seg.len() > 0 && seg.last() == '\r' {
        seg.drop_last()
    } else {
        seg
    }
}

/// The lines of `s`, as the `lines` method of `str` splits them: one line
/// per line feed, a carriage return immediately before a line feed dropped
/// with it, and a final segment without a terminator kept unless it is
/// empty.
pub open spec fn lines_of(s: Seq<char>) -> Seq<Seq<char>>
    decreases s.len(),
{
    if s.len() == 0 {
        Seq::empty()
    } else if 0 <= first_nl(s) < s.len() {
        seq![strip_cr(s.take(first_nl(s)))] + lines_of(s.skip(first_nl(s) + 1))
    } else {
        seq![s]
    }
}

/// `needle` occurs in `hay` starting at position `i`.
pub open spec fn contains_at(hay: Seq<char>, i: int, needle: Seq<char>) -> bool {
    &&& 0 <= i
    &&& i + needle.len() <= hay.len()
    &&& hay.subrange(i, i + needle.len() as int) == needle
}

/// `needle` occurs somewhere in `hay`.  The empty needle occurs in
/// everything.
pub open spec fn has_substring(hay: Seq<char>, needle: Seq<char>) -> bool {
    exists|i: int| contains_at(hay, i, needle)
}

/// Whether `hay` contains `needle` as a contiguous run of characters.
pub fn contains_substring(hay: &str, needle: &str) -> (r: bool)
    ensures
        r == has_substring(hay@, needle@),
{
    let hay_len = hay.unicode_len();
    let needle_len = needle.unicode_len();
    if needle_len > hay_len {
        proof {
            assert(forall|i: int| !contains_at(hay@, i, needle@));
        }
        return false;
    }
    let mut k: usize = 0;
    while k <= hay_len - needle_len
        invariant
            needle_len <= hay_len,
            hay_len == hay@.len(),
            needle_len == needle@.len(),
            k <= hay_len - needle_len + 1,
            forall|i: int| 0 <= i < k ==> !contains_at(hay@, i, needle@),
        decreases hay_len - needle_len - k + 1,
    {
        let mut j: usize = 0;
        let mut all_equal = true;
        while j < needle_len
            invariant
                k + needle_len <= hay_len,
                hay_len == hay@.len(),
                needle_len == needle@.len(),
                j <= needle_len,
                all_equal ==> (forall|m: int| 0 <= m < j ==> hay@[k + m] == needle@[m]),
                !all_equal ==> (exists|m: int|
                    0 <= m < needle@.len() && hay@[k + m] != needle@[m]),
            decreases needle_len - j,
        {
            if hay.get_char(k + j) != needle.get_char(j) {
                all_equal = false;
                j = needle_len;
            } else {
                j = j + 1;
            }
        }
        if all_equal {
            proof {
                assert(hay@.subrange(k as int, k + needle@.len() as int) =~= needle@);
                assert(contains_at(hay@, k as int, needle@));
            }
            return true;
        }
        proof {
            let m = choose|m: int| 0 <= m < needle@.len() && hay@[k + m] != needle@[m];
            assert(hay@.subrange(k as int, k + needle@.len() as int)[m] == hay@[k + m]);
            assert(!contains_at(hay@, k as int, needle@));
        }
        k = k + 1;
    }
    proof {
        assert(forall|i: int| contains_at(hay@, i, needle@) ==> 0 <= i <= hay@.len() - needle@.len());
    }
    false
}

/// Position `k` is where the first line feed of `s` stands — or the end of
/// `s`, if no character before `k` is a line feed and `k` is the length.
proof fn lemma_first_nl_at(s: Seq<char>, k: int)
    requires
        0 <= k <= s.len(),
        forall|j: int| 0 <= j < k ==> s[j] != '\n',
        k < s.len() ==> s[k] == '\n',
    ensures
        first_nl(s) == k,
    decreases s.len(),
{
    if s.len() == 0 {
    } else if s[0] == '\n' {
        assert(k == 0);
    } else {
        assert(k >= 1);
        lemma_first_nl_at(s.drop_first(), k - 1);
    }
}

/// Of the given lines, those that contain `query`, in order.
pub open spec fn matching_lines(query: Seq<char>, lines: Seq<Seq<char>>) -> Seq<Seq<char>>
    decreases lines.len(),
{
    if lines.len() == 0 {
        Seq::empty()
    } else {
        matching_lines(query, lines.drop_last()) + (if has_substring(lines.last(), query) {
            seq![lines.last()]
        } else {
            Seq::empty()
        })
    }
}

/// Of the given lines, those whose lowercase form contains the lowercase
/// form of `query`, in order.  The lines are returned as they stand, not
/// lowered.
pub open spec fn matching_lines_ci(query: Seq<char>, lines: Seq<Seq<char>>) -> Seq<Seq<char>>
    decreases lines.len(),
{
    if lines.len() == 0 {
        Seq::empty()
    } else {
        matching_lines_ci(query, lines.drop_last()) + (if has_substring(
            lower_of(lines.last()),
            lower_of(query),
        ) {
            seq![lines.last()]
        } else {
            Seq::empty()
        })
    }
}

/// The lowercase form of a string's characters, as `str::to_lowercase`
/// computes it.
pub uninterp spec fn lower_of(s: Seq<char>) -> Seq<char>;

/// Relies on `str::to_lowercase`: the lowercase form of a string depends
/// on its characters alone.
#[verifier::external_body]
fn lowercase(s: &str) -> (r: String)
    ensures
        r@ == lower_of(s@),
{
    s.to_lowercase()
}

/// The lines of `contents` that contain `query`, in order.
pub fn search<'a>(query: &str, contents: &'a str) -> (r: Vec<&'a str>)
    ensures
        r@.map_values(|line: &str| line@) == matching_lines(query@, lines_of(contents@)),
{
    let n = contents.unicode_len();
    let mut result: Vec<&'a str> = Vec::new();
    let mut start: usize = 0;
    let mut i: usize = 0;
    let ghost mut done: Seq<Seq<char>> = Seq::empty();
    proof {
        assert(contents@.skip(0) =~= contents@);
        assert(Seq::<Seq<char>>::empty() + lines_of(contents@) =~= lines_of(contents@));
        assert(result@.map_values(|line: &str| line@) =~= matching_lines(query@, done));
    }
    while i < n
        invariant
            n == contents@.len(),
            start <= i <= n,
            forall|j: int| start <= j < i ==> contents@[j] != '\n',
            lines_of(contents@) == done + lines_of(contents@.skip(start as int)),
            result@.map_values(|line: &str| line@) == matching_lines(query@, done),
        decreases n - i,
    {
        if contents.get_char(i) == '\n' {
            let mut end = i;
            if end > start && contents.get_char(end - 1) == '\r' {
                end = end - 1;
            }
            let line = contents.substring_char(start, end);
            proof {
                let s0 = contents@.skip(start as int);
                lemma_first_nl_at(s0, i - start);
                assert(s0.take(i - start) =~= contents@.subrange(start as int, i as int));
                if i > start && contents@[i - 1] == '\r' {
                    assert(s0.take(i - start).last() == '\r');
                    assert(s0.take(i - start).drop_last() =~= contents@.subrange(
                        start as int,
                        i - 1,
                    ));
                }
                assert(line@ == strip_cr(s0.take(i - start)));
                assert(s0.skip(i - start + 1) =~= contents@.skip(i + 1));
                assert(lines_of(s0) == seq![line@] + lines_of(contents@.skip(i + 1)));
                assert(done + (seq![line@] + lines_of(contents@.skip(i + 1))) =~= done.push(line@)
                    + lines_of(contents@.skip(i + 1)));
                assert(done.push(line@).drop_last() =~= done);
            }
            if contains_substring(line, query) {
                result.push(line);
            }
            proof {
                done = done.push(line@);
                assert(result@.map_values(|line: &str| line@) =~= matching_lines(query@, done));
            }
            start = i + 1;
        }
        i = i + 1;
    }
    if start < n {
        let line = contents.substring_char(start, n);
        proof {
            let s0 = contents@.skip(start as int);
            lemma_first_nl_at(s0, n - start);
            assert(line@ =~= s0);
            assert(lines_of(s0) == seq![line@]);
            assert(done + seq![line@] =~= done.push(line@));
            assert(done.push(line@).drop_last() =~= done);
        }
        if contains_substring(line, query) {
            result.push(line);
        }
        proof {
            done = done.push(line@);
            assert(result@.map_values(|line: &str| line@) =~= matching_lines(query@, done));
        }
    } else {
        proof {
            assert(lines_of(contents@.skip(start as int)) =~= Seq::<Seq<char>>::empty());
            assert(done + Seq::<Seq<char>>::empty() =~= done);
        }
    }
    result
}

/// The lines of `contents` whose lowercase form contains the lowercase
/// form of `query`, in order; the matching lines are returned as they
/// stand in `contents`.
pub fn search_case_insensitive<'a>(query: &str, contents: &'a str) -> (r: Vec<&'a str>)
    ensures
        r@.map_values(|line: &str| line@) == matching_lines_ci(query@, lines_of(contents@)),
{
    let lower_query = lowercase(query);
    let n = contents.unicode_len();
    let mut result: Vec<&'a str> = Vec::new();
    let mut start: usize = 0;
    let mut i: usize = 0;
    let ghost mut done: Seq<Seq<char>> = Seq::empty();
    proof {
        assert(contents@.skip(0) =~= contents@);
        assert(Seq::<Seq<char>>::empty() + lines_of(contents@) =~= lines_of(contents@));
        assert(result@.map_values(|line: &str| line@) =~= matching_lines_ci(query@, done));
    }
    while i < n
        invariant
            n == contents@.len(),
            start <= i <= n,
            lower_query@ == lower_of(query@),
            forall|j: int| start <= j < i ==> contents@[j] != '\n',
            lines_of(contents@) == done + lines_of(contents@.skip(start as int)),
            result@.map_values(|line: &str| line@) == matching_lines_ci(query@, done),
        decreases n - i,
    {
        if contents.get_char(i) == '\n' {
            let mut end = i;
            if end > start && contents.get_char(end - 1) == '\r' {
                end = end - 1;
            }
            let line = contents.substring_char(start, end);
            proof {
                let s0 = contents@.skip(start as int);
                lemma_first_nl_at(s0, i - start);
                assert(s0.take(i - start) =~= contents@.subrange(start as int, i as int));
                if i > start && contents@[i - 1] == '\r' {
                    assert(s0.take(i - start).last() == '\r');
                    assert(s0.take(i - start).drop_last() =~= contents@.subrange(
                        start as int,
                        i - 1,
                    ));
                }
                assert(line@ == strip_cr(s0.take(i - start)));
                assert(s0.skip(i - start + 1) =~= contents@.skip(i + 1));
                assert(lines_of(s0) == seq![line@] + lines_of(contents@.skip(i + 1)));
                assert(done + (seq![line@] + lines_of(contents@.skip(i + 1))) =~= done.push(line@)
                    + lines_of(contents@.skip(i + 1)));
                assert(done.push(line@).drop_last() =~= done);
            }
            let lower_line = lowercase(line);
            if contains_substring(lower_line.as_str(), lower_query.as_str()) {
                result.push(line);
            }
            proof {
                done = done.push(line@);
                assert(result@.map_values(|line: &str| line@) =~= matching_lines_ci(query@, done));
            }
            start = i + 1;
        }
        i = i + 1;
    }
    if start < n {
        let line = contents.substring_char(start, n);
        proof {
            let s0 = contents@.skip(start as int);
            lemma_first_nl_at(s0, n - start);
            assert(line@ =~= s0);
            assert(lines_of(s0) == seq![line@]);
            assert(done + seq![line@] =~= done.push(line@));
            assert(done.push(line@).drop_last() =~= done);
        }
        let lower_line = lowercase(line);
        if contains_substring(lower_line.as_str(), lower_query.as_str()) {
            result.push(line);
        }
        proof {
            done = done.push(line@);
            assert(result@.map_values(|line: &str| line@) =~= matching_lines_ci(query@, done));
        }
    } else {
        proof {
            assert(lines_of(contents@.skip(start as int)) =~= Seq::<Seq<char>>::empty());
            assert(done + Seq::<Seq<char>>::empty() =~= done);
        }
    }
    result
}

/// Search `contents` as `config` directs: case-sensitively or not.  This
/// is the computing half of a grep-style run; the host reads the file and
/// prints the lines returned here.
pub fn run_search<'a>(config: &Config, contents: &'a str) -> (r: Vec<&'a str>)
    ensures
        config.case_sensitive ==> r@.map_values(|line: &str| line@) == matching_lines(
            config.query@,
            lines_of(contents@),
        ),
        !config.case_sensitive ==> r@.map_values(|line: &str| line@) == matching_lines_ci(
            config.query@,
            lines_of(contents@),
        ),
{
    if config.case_sensitive {
        search(config.query.as_str(), contents)
    } else {
        search_case_insensitive(config.query.as_str(), contents)
    }
}

} // verus!
