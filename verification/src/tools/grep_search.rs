//! Searching in files.
use vstd::prelude::*;
use vstd::string::*;
use crate::error::{ErrorView, LexError, Result};
use crate::json::{members, Json, JsonTree};
use crate::pattern::{compile, is_match, pattern_fault, pattern_matches, pattern_of};
use crate::text::{
    cat2, cat3, cat5, clone_texts, dec, dec_text, join, join_texts, lines, opt_text, text_lines,
    trim_end, trimmed_end, views,
};
use crate::tools::{
    describe_as, described_as, make_schema, object_schema, str_views, Tool,
};

verus! {

/// Searches file contents for a regular expression.
#[derive(Debug)]
pub struct GrepSearch;

/// How many matching lines are shown.
pub const MAX_MATCH_LINES: usize = 200;

/// A matching line as it is shown: where it stands, and what it says.
pub open spec fn hit_line(path: Seq<char>, n: nat, line: Seq<char>) -> Seq<char> {
    path + ":"@ + dec(n) + ": "@ + trim_end(line)
}

/// The matching lines among `ls`, the lines of the file at `path`, in order.
pub open spec fn hits_in(pattern: Seq<char>, path: Seq<char>, ls: Seq<Seq<char>>) -> Seq<Seq<char>>
    decreases ls.len(),
{
    if ls.len() == 0 {
        Seq::empty()
    } else if pattern_matches(pattern, ls.last()) {
        hits_in(pattern, path, ls.drop_last()).push(hit_line(path, ls.len(), ls.last()))
    } else {
        hits_in(pattern, path, ls.drop_last())
    }
}

/// The matching lines of a list of files, given by path and text, in order.
pub open spec fn all_hits(pattern: Seq<char>, files: Seq<(Seq<char>, Seq<char>)>) -> Seq<Seq<char>>
    decreases files.len(),
{
    if files.len() == 0 {
        Seq::empty()
    } else {
        all_hits(pattern, files.drop_last()) + hits_in(
            pattern,
            files.last().0,
            lines(files.last().1),
        )
    }
}

/// The first of the matching lines, as many as are shown.
pub open spec fn shown(hits: Seq<Seq<char>>) -> Seq<Seq<char>> {
    if hits.len() > MAX_MATCH_LINES {
        hits.take(MAX_MATCH_LINES as int)
    } else {
        hits
    }
}

/// The note that more lines match.
pub open spec fn more_note() -> Seq<char> {
    "...(结果已截断,最多展示 "@ + dec(MAX_MATCH_LINES as nat) + " 行,实际匹配 "@ + dec(
        (MAX_MATCH_LINES + 1) as nat,
    ) + "+ 行)"@
}

/// What a search is told as: the lines, and a note where there are more than are shown.
pub open spec fn result_text(pattern: Seq<char>, hits: Seq<Seq<char>>) -> Seq<char> {
    if hits.len() == 0 {
        "未找到匹配 \""@ + pattern + "\" 的内容"@
    } else if hits.len() > MAX_MATCH_LINES {
        join(shown(hits).push(more_note()), "\n"@)
    } else {
        join(hits, "\n"@)
    }
}

/// A search under way.
#[derive(Debug)]
pub struct Search {
    pattern: String,
    re: regex::Regex,
    out: Vec<String>,
    truncated: bool,
}

impl Search {
    /// What is searched for.
    pub closed spec fn pattern(&self) -> Seq<char> {
        self.pattern@
    }

    /// Whether the search has seen exactly the matching lines `hits`.
    pub closed spec fn has_seen(&self, hits: Seq<Seq<char>>) -> bool {
        &&& pattern_of(self.re) == self.pattern@
        &&& views(self.out@) == shown(hits)
        &&& self.truncated == (hits.len() > MAX_MATCH_LINES)
    }

    /// A search for a pattern, before any file.
    pub fn new(pattern: &str) -> (r: Result<Search>)
        ensures
            match r {
                Ok(s) => {
                    &&& pattern_fault(pattern@) is None
                    &&& s.pattern() == pattern@
                    &&& s.has_seen(Seq::empty())
                },
                Err(e) => {
                    &&& pattern_fault(pattern@) is Some
                    &&& e@ == ErrorView::Tool("正则表达式无效: "@ + pattern_fault(pattern@)->0)
                },
            },
    {
        match compile(pattern) {
            Ok(re) => {
                let s = Search {
                    pattern: pattern.to_owned(),
                    re,
                    out: Vec::new(),
                    truncated: false,
                };
                assert(views(s.out@) =~= Seq::empty());
                Ok(s)
            },
            Err(e) => Err(LexError::Tool(cat2("正则表达式无效: ", e.as_str()))),
        }
    }

    /// Takes one more file in. Says whether the search goes on: once more lines match than are
    /// shown, no further file changes what is told.
    pub fn add_file(&mut self, path: &str, text: &str) -> (r: bool)
        ensures
            final(self).pattern() == old(self).pattern(),
            forall|hits: Seq<Seq<char>>| #[trigger]
                old(self).has_seen(hits) ==> {
                    let now = hits + hits_in(old(self).pattern(), path@, lines(text@));
                    &&& r == (now.len() <= MAX_MATCH_LINES)
                    &&& final(self).has_seen(now)
                },
    {
        let ls = text_lines(text);
        let ghost all = lines(text@);
        let ghost p = self.pattern@;
        let ghost start = *self;
        let mut i: usize = 0;
        assert(all.take(0) =~= Seq::empty());
        assert forall|hits: Seq<Seq<char>>| #[trigger] start.has_seen(hits) implies hits + hits_in(
            p,
            path@,
            all.take(0),
        ) == hits by {
            assert(hits + Seq::empty() =~= hits);
        }
        while i < ls.len() && !self.truncated
            invariant
                i <= ls@.len(),
                views(ls@) == all,
                all == lines(text@),
                self.pattern@ == p,
                start.pattern@ == p,
                forall|hits: Seq<Seq<char>>| #[trigger]
                    start.has_seen(hits) ==> self.has_seen(hits + hits_in(p, path@, all.take(i as int))),
            decreases ls@.len() - i,
        {
            let ghost before = *self;
            let ghost seen = hits_in(p, path@, all.take(i as int));
            let ghost more = hits_in(p, path@, all.take(i + 1));
            proof {
                assert(all.take(i + 1).drop_last() =~= all.take(i as int));
                assert(all.take(i + 1).last() == ls@[i as int]@);
            }
            let line = ls[i].as_str();
            let ghost mut hit: Seq<char> = Seq::empty();
            let matched = is_match(&self.re, line);
            if matched {
                if self.out.len() >= MAX_MATCH_LINES {
                    self.truncated = true;
                    proof {
                        hit = hit_line(path@, (i + 1) as nat, line@);
                    }
                } else {
                    let n = dec_text(i as u64 + 1);
                    let body = trimmed_end(line);
                    let one = cat5(path, ":", n.as_str(), ": ", body.as_str());
                    self.out.push(one);
                    proof {
                        hit = one@;
                        assert(views(self.out@) =~= views(before.out@).push(one@));
                    }
                }
            }
            proof {
                assert forall|hits: Seq<Seq<char>>| #[trigger] start.has_seen(hits) implies self.has_seen(
                    hits + more,
                ) by {
                    assert(before.has_seen(hits + seen));
                    if matched {
                        assert(more == seen.push(hit));
                        assert(hits + more =~= (hits + seen).push(hit));
                        assert(shown((hits + seen).push(hit)) =~= views(self.out@));
                    } else {
                        assert(more == seen);
                    }
                }
            }
            i = i + 1;
        }
        proof {
            assert forall|hits: Seq<Seq<char>>| #[trigger] start.has_seen(hits) implies ({
                let now = hits + hits_in(p, path@, lines(text@));
                &&& !self.truncated == (now.len() <= MAX_MATCH_LINES)
                &&& self.has_seen(now)
            }) by {
                assert(self.has_seen(hits + hits_in(p, path@, all.take(i as int))));
                if i < ls@.len() {
                    lemma_hits_grow(p, path@, all, i as int);
                    let a = hits + hits_in(p, path@, all.take(i as int));
                    let b = hits + hits_in(p, path@, all);
                    assert(a.is_prefix_of(b)) by {
                        assert(a =~= b.subrange(0, a.len() as int));
                    }
                    assert(shown(a) =~= shown(b));
                } else {
                    assert(all.take(i as int) =~= all);
                }
            }
        }
        !self.truncated
    }

    /// What the search is told as.
    pub fn finish(&self) -> (r: String)
        ensures
            forall|hits: Seq<Seq<char>>| #[trigger]
                self.has_seen(hits) ==> r@ == result_text(self.pattern(), hits),
    {
        if self.out.len() == 0 {
            let r = cat3("未找到匹配 \"", self.pattern.as_str(), "\" 的内容");
            assert forall|hits: Seq<Seq<char>>| #[trigger] self.has_seen(hits) implies r@
                == result_text(self.pattern(), hits) by {
                assert(shown(hits).len() == 0);
            }
            return r;
        }
        let mut out = clone_texts(&self.out);
        if self.truncated {
            let a = dec_text(MAX_MATCH_LINES as u64);
            let b = dec_text(MAX_MATCH_LINES as u64 + 1);
            let note = cat5(
                "...(结果已截断,最多展示 ",
                a.as_str(),
                " 行,实际匹配 ",
                b.as_str(),
                "+ 行)",
            );
            let ghost before = out@;
            out.push(note);
            assert(views(out@) =~= views(before).push(more_note()));
        }
        assert forall|hits: Seq<Seq<char>>| #[trigger] self.has_seen(hits) implies join(
            views(out@),
            "\n"@,
        ) == result_text(self.pattern(), hits) by {
            assert(shown(hits).len() > 0);
        }
        join_texts(&out, "\n")
    }
}

/// More lines have at least the matches of the first ones, in front.
proof fn lemma_hits_grow(pattern: Seq<char>, path: Seq<char>, ls: Seq<Seq<char>>, n: int)
    requires
        0 <= n <= ls.len(),
    ensures
        hits_in(pattern, path, ls.take(n)).is_prefix_of(hits_in(pattern, path, ls)),
    decreases ls.len(),
{
    if n < ls.len() {
        lemma_hits_grow(pattern, path, ls.drop_last(), n);
        assert(ls.drop_last().take(n) =~= ls.take(n));
        let a = hits_in(pattern, path, ls.take(n));
        let b = hits_in(pattern, path, ls.drop_last());
        let c = hits_in(pattern, path, ls);
        assert(a =~= c.subrange(0, a.len() as int)) by {
            assert(a =~= b.subrange(0, a.len() as int));
        }
    } else {
        assert(ls.take(n) =~= ls);
    }
}

/// The view of a list of files.
pub open spec fn file_views(files: Seq<(String, String)>) -> Seq<(Seq<char>, Seq<char>)> {
    Seq::new(files.len(), |i: int| (files[i].0@, files[i].1@))
}

/// More files have at least the matches of the first ones, in front.
proof fn lemma_files_grow(pattern: Seq<char>, files: Seq<(Seq<char>, Seq<char>)>, n: int)
    requires
        0 <= n <= files.len(),
    ensures
        all_hits(pattern, files.take(n)).is_prefix_of(all_hits(pattern, files)),
    decreases files.len(),
{
    if n < files.len() {
        lemma_files_grow(pattern, files.drop_last(), n);
        assert(files.drop_last().take(n) =~= files.take(n));
        let a = all_hits(pattern, files.take(n));
        let b = all_hits(pattern, files.drop_last());
        let c = all_hits(pattern, files);
        assert(a =~= c.subrange(0, a.len() as int)) by {
            assert(a =~= b.subrange(0, a.len() as int));
        }
    } else {
        assert(files.take(n) =~= files);
    }
}

/// Searches files, given by path and text in the order in which they are found.
pub fn search_sync(pattern: &str, files: &Vec<(String, String)>) -> (r: Result<String>)
    ensures
        match r {
            Ok(s) => {
                &&& pattern_fault(pattern@) is None
                &&& s@ == result_text(pattern@, all_hits(pattern@, file_views(files@)))
            },
            Err(e) => {
                &&& pattern_fault(pattern@) is Some
                &&& e@ == ErrorView::Tool("正则表达式无效: "@ + pattern_fault(pattern@)->0)
            },
        },
{
    let mut s = match Search::new(pattern) {
        Ok(s) => s,
        Err(e) => {
            return Err(e);
        },
    };
    let ghost all = file_views(files@);
    let mut i: usize = 0;
    let mut go_on = true;
    assert(all.take(0) =~= Seq::empty());
    while i < files.len() && go_on
        invariant
            i <= files@.len(),
            all == file_views(files@),
            s.pattern() == pattern@,
            s.has_seen(all_hits(pattern@, all.take(i as int))),
            !go_on ==> all_hits(pattern@, all.take(i as int)).len() > MAX_MATCH_LINES,
        decreases files@.len() - i,
    {
        let ghost seen = all_hits(pattern@, all.take(i as int));
        proof {
            assert(all.take(i + 1).drop_last() =~= all.take(i as int));
            assert(all.take(i + 1).last() == (files@[i as int].0@, files@[i as int].1@));
            assert(s.has_seen(seen));
        }
        go_on = s.add_file(files[i].0.as_str(), files[i].1.as_str());
        i = i + 1;
    }
    proof {
        lemma_files_grow(pattern@, all, i as int);
        let a = all_hits(pattern@, all.take(i as int));
        let b = all_hits(pattern@, all);
        if i < files@.len() {
            assert(shown(a) =~= shown(b)) by {
                assert(a =~= b.subrange(0, a.len() as int));
            }
            assert(s.has_seen(b));
        } else {
            assert(all.take(i as int) =~= all);
        }
    }
    Ok(s.finish())
}

/// Whether the pattern matches line `k` of file `f`, both counted from zero.
pub open spec fn matches_at(
    pattern: Seq<char>,
    files: Seq<(Seq<char>, Seq<char>)>,
    f: int,
    k: int,
) -> bool {
    &&& 0 <= f < files.len()
    &&& 0 <= k < lines(files[f].1).len()
    &&& pattern_matches(pattern, lines(files[f].1)[k])
}

/// Whether `at` lists all matching lines, by file and line, each once and in order.
pub open spec fn lists_matches(
    at: Seq<(int, int)>,
    pattern: Seq<char>,
    files: Seq<(Seq<char>, Seq<char>)>,
) -> bool {
    &&& forall|i: int, j: int|
        0 <= i < j < at.len() ==> (#[trigger] at[i]).0 < (#[trigger] at[j]).0 || (at[i].0 == at[j].0
            && at[i].1 < at[j].1)
    &&& forall|i: int|
        0 <= i < at.len() ==> matches_at(pattern, files, (#[trigger] at[i]).0, at[i].1)
    &&& forall|f: int, k: int|
        #[trigger] matches_at(pattern, files, f, k) ==> at.contains((f, k))
}

/// A line by file and line as it is told: the path, the number of the line counted from one, and
/// the line without white space at its end.
pub open spec fn told_line(files: Seq<(Seq<char>, Seq<char>)>, place: (int, int)) -> Seq<char> {
    files[place.0].0 + ":"@ + dec((place.1 + 1) as nat) + ": "@ + trim_end(
        lines(files[place.0].1)[place.1],
    )
}

/// The matching lines of one file, by number.
proof fn lemma_places_in(pattern: Seq<char>, path: Seq<char>, ls: Seq<Seq<char>>) -> (at: Seq<int>)
    ensures
        forall|i: int, j: int| 0 <= i < j < at.len() ==> at[i] < at[j],
        forall|i: int|
            0 <= i < at.len() ==> 0 <= #[trigger] at[i] < ls.len() && pattern_matches(
                pattern,
                ls[at[i]],
            ),
        forall|k: int|
            0 <= k < ls.len() && pattern_matches(pattern, #[trigger] ls[k]) ==> at.contains(k),
        hits_in(pattern, path, ls).len() == at.len(),
        forall|i: int|
            0 <= i < at.len() ==> #[trigger] hits_in(pattern, path, ls)[i] == path + ":"@ + dec(
                (at[i] + 1) as nat,
            ) + ": "@ + trim_end(ls[at[i]]),
    decreases ls.len(),
{
    if ls.len() == 0 {
        Seq::empty()
    } else {
        let front = ls.drop_last();
        let before = lemma_places_in(pattern, path, front);
        assert forall|i: int| 0 <= i < before.len() implies 0 <= #[trigger] before[i] < ls.len()
            && pattern_matches(pattern, ls[before[i]]) by {
            assert(front[before[i]] == ls[before[i]]);
        }
        let n = ls.len() - 1;
        if pattern_matches(pattern, ls.last()) {
            let at = before.push(n);
            assert forall|k: int|
                0 <= k < ls.len() && pattern_matches(pattern, #[trigger] ls[k]) implies at.contains(
                k,
            ) by {
                if k < n {
                    assert(front[k] == ls[k]);
                    let i = choose|i: int| 0 <= i < before.len() && before[i] == k;
                    assert(at[i] == k);
                } else {
                    assert(at[n - n + before.len()] == k);
                }
            }
            assert forall|i: int| 0 <= i < at.len() implies #[trigger] hits_in(
                pattern,
                path,
                ls,
            )[i] == path + ":"@ + dec((at[i] + 1) as nat) + ": "@ + trim_end(ls[at[i]]) by {
                if i < before.len() {
                    assert(hits_in(pattern, path, front)[i] == hits_in(pattern, path, ls)[i]);
                    assert(front[before[i]] == ls[before[i]]);
                }
            }
            at
        } else {
            assert forall|k: int|
                0 <= k < ls.len() && pattern_matches(
                    pattern,
                    #[trigger] ls[k],
                ) implies before.contains(k) by {
                assert(k < n);
                assert(front[k] == ls[k]);
            }
            assert forall|i: int| 0 <= i < before.len() implies #[trigger] hits_in(
                pattern,
                path,
                ls,
            )[i] == path + ":"@ + dec((before[i] + 1) as nat) + ": "@ + trim_end(ls[before[i]]) by {
                assert(hits_in(pattern, path, front)[i] == hits_in(pattern, path, ls)[i]);
                assert(front[before[i]] == ls[before[i]]);
            }
            before
        }
    }
}

/// The matching lines of all files, by file and line.
proof fn lemma_places(pattern: Seq<char>, files: Seq<(Seq<char>, Seq<char>)>) -> (at: Seq<
    (int, int),
>)
    ensures
        lists_matches(at, pattern, files),
        all_hits(pattern, files) == at.map_values(|p: (int, int)| told_line(files, p)),
    decreases files.len(),
{
    if files.len() == 0 {
        let at = Seq::<(int, int)>::empty();
        assert(all_hits(pattern, files) =~= at.map_values(|p: (int, int)| told_line(files, p)));
        at
    } else {
        let front = files.drop_last();
        let n = files.len() - 1;
        let before = lemma_places(pattern, front);
        let ls = lines(files.last().1);
        let more = lemma_places_in(pattern, files.last().0, ls);
        let at = before + more.map_values(|k: int| (n, k));
        assert forall|i: int| 0 <= i < at.len() implies matches_at(
            pattern,
            files,
            (#[trigger] at[i]).0,
            at[i].1,
        ) by {
            if i < before.len() {
                assert(matches_at(pattern, front, before[i].0, before[i].1));
                assert(front[before[i].0] == files[before[i].0]);
            } else {
                assert(at[i] == (n, more[i - before.len()]));
            }
        }
        assert forall|i: int, j: int| 0 <= i < j < at.len() implies (#[trigger] at[i]).0 < (
        #[trigger] at[j]).0 || (at[i].0 == at[j].0 && at[i].1 < at[j].1) by {
            if i < before.len() {
                assert(matches_at(pattern, front, before[i].0, before[i].1));
            }
        }
        assert forall|f: int, k: int| #[trigger] matches_at(
            pattern,
            files,
            f,
            k,
        ) implies at.contains((f, k)) by {
            if f < n {
                assert(front[f] == files[f]);
                assert(matches_at(pattern, front, f, k));
                let i = choose|i: int| 0 <= i < before.len() && before[i] == (f, k);
                assert(at[i] == (f, k));
            } else {
                assert(pattern_matches(pattern, ls[k]));
                let i = choose|i: int| 0 <= i < more.len() && more[i] == k;
                assert(at[before.len() + i] == (f, k));
            }
        }
        let want = at.map_values(|p: (int, int)| told_line(files, p));
        let hits = all_hits(pattern, files);
        assert(hits.len() == want.len());
        assert forall|i: int| 0 <= i < hits.len() implies hits[i] == want[i] by {
            if i < before.len() {
                assert(hits[i] == all_hits(pattern, front)[i]);
                assert(matches_at(pattern, front, before[i].0, before[i].1));
                assert(front[before[i].0] == files[before[i].0]);
            } else {
                assert(hits[i] == hits_in(pattern, files.last().0, ls)[i - before.len()]);
                assert(at[i] == (n, more[i - before.len()]));
            }
        }
        assert(hits =~= want);
        at
    }
}

/// A search tells every line that matches, each once, in the order of the files and of their lines,
/// by path, number and text; where more than [`MAX_MATCH_LINES`] match it tells the first of them
/// and then that there are more; and it tells that nothing was found where no line of any file
/// matches, and only there.
pub proof fn law_search_tells_every_match(pattern: Seq<char>, files: Seq<(Seq<char>, Seq<char>)>)
    ensures
        exists|at: Seq<(int, int)>|
            {
                let told = at.map_values(|p: (int, int)| told_line(files, p));
                let r = result_text(pattern, all_hits(pattern, files));
                &&& #[trigger] lists_matches(at, pattern, files)
                &&& at.len() == 0 ==> r == "未找到匹配 \""@ + pattern + "\" 的内容"@
                &&& 0 < at.len() <= 200 ==> r == join(told, "\n"@)
                &&& at.len() > 200 ==> r == join(
                    told.take(200).push(
                        "...(结果已截断,最多展示 "@ + dec(200) + " 行,实际匹配 "@ + dec(201) + "+ 行)"@,
                    ),
                    "\n"@,
                )
            },
{
    let at = lemma_places(pattern, files);
    let told = at.map_values(|p: (int, int)| told_line(files, p));
    let r = result_text(pattern, all_hits(pattern, files));
    assert(lists_matches(at, pattern, files));
    if at.len() > 200 {
        assert(more_note() == "...(结果已截断,最多展示 "@ + dec(200) + " 行,实际匹配 "@ + dec(201)
            + "+ 行)"@);
    }
}

/// Whether `line` stands in `text` as a line of its own, from `i` on.
pub open spec fn line_stands_at(text: Seq<char>, line: Seq<char>, i: int) -> bool {
    &&& 0 <= i
    &&& i + line.len() <= text.len()
    &&& text.subrange(i, i + line.len()) == line
    &&& i == 0 || text[i - 1] == '\n'
    &&& i + line.len() == text.len() || text[i + line.len()] == '\n'
}

proof fn lemma_joined_lines_stand(parts: Seq<Seq<char>>, k: int) -> (i: int)
    requires
        0 <= k < parts.len(),
    ensures
        line_stands_at(join(parts, "\n"@), parts[k], i),
    decreases parts.len(),
{
    reveal_strlit("\n");
    let whole = join(parts, "\n"@);
    if parts.len() == 1 {
        assert(whole.subrange(0, whole.len() as int) =~= parts[0]);
        0
    } else {
        let front = join(parts.drop_last(), "\n"@);
        assert(whole == front + "\n"@ + parts.last());
        if k == parts.len() - 1 {
            let i = front.len() as int + 1;
            assert(whole.subrange(i, i + parts[k].len()) =~= parts[k]);
            i
        } else {
            let i = lemma_joined_lines_stand(parts.drop_last(), k);
            assert(whole.subrange(i, i + parts[k].len()) =~= front.subrange(i, i + parts[k].len()));
            assert(i > 0 ==> whole[i - 1] == front[i - 1]);
            if i + parts[k].len() < front.len() {
                assert(whole[i + parts[k].len()] == front[i + parts[k].len()]);
            }
            i
        }
    }
}

/// Where no more lines match than are shown, each line that matches stands in what is told as a
/// line of its own: its path, its number and its text.
pub proof fn law_match_stands_in_the_result(
    pattern: Seq<char>,
    files: Seq<(Seq<char>, Seq<char>)>,
    f: int,
    k: int,
)
    requires
        0 <= f < files.len(),
        0 <= k < lines(files[f].1).len(),
        pattern_matches(pattern, lines(files[f].1)[k]),
        all_hits(pattern, files).len() <= 200,
    ensures
        exists|i: int|
            #[trigger] line_stands_at(
                result_text(pattern, all_hits(pattern, files)),
                files[f].0 + ":"@ + dec((k + 1) as nat) + ": "@ + trim_end(lines(files[f].1)[k]),
                i,
            ),
{
    let at = lemma_places(pattern, files);
    let told = at.map_values(|p: (int, int)| told_line(files, p));
    assert(matches_at(pattern, files, f, k));
    let n = choose|n: int| 0 <= n < at.len() && at[n] == (f, k);
    assert(told[n] == told_line(files, (f, k)));
    let i = lemma_joined_lines_stand(told, n);
    let r = result_text(pattern, all_hits(pattern, files));
    assert(r == join(told, "\n"@));
    assert(line_stands_at(
        r,
        files[f].0 + ":"@ + dec((k + 1) as nat) + ": "@ + trim_end(lines(files[f].1)[k]),
        i,
    ));
}

/// What a call asks for: a pattern that is not empty, and where to search.
pub open spec fn search_asked(input: JsonTree) -> core::result::Result<
    (Seq<char>, Option<Seq<char>>),
    ErrorView,
> {
    if input.text_of("pattern"@) is None || input.text_of("pattern"@)->0.len() == 0 {
        Err(ErrorView::Tool("grep_search 缺少必填参数 \""@ + "pattern"@ + "\"(字符串)"@))
    } else {
        Ok(
            (
                input.text_of("pattern"@)->0,
                match input.text_of("path"@) {
                    Some(p) => if p.len() > 0 {
                        Some(p)
                    } else {
                        None
                    },
                    None => None,
                },
            ),
        )
    }
}

impl GrepSearch {
    /// Reads what a call asks for: the pattern, and the place to search where one is named.
    pub fn parse(&self, input: &Json) -> (r: Result<(String, Option<String>)>)
        ensures
            match r {
                Ok((p, at)) => search_asked(input.tree()) == Ok::<
                    (Seq<char>, Option<Seq<char>>),
                    ErrorView,
                >((p@, opt_text(at))),
                Err(e) => search_asked(input.tree()) == Err::<
                    (Seq<char>, Option<Seq<char>>),
                    ErrorView,
                >(e@),
            },
    {
        let pattern = match input.text_of("pattern") {
            Some(p) => p,
            None => {
                return Err(
                    LexError::Tool(cat3("grep_search 缺少必填参数 \"", "pattern", "\"(字符串)")),
                );
            },
        };
        if pattern.is_empty() {
            return Err(
                LexError::Tool(cat3("grep_search 缺少必填参数 \"", "pattern", "\"(字符串)")),
            );
        }
        let at = match input.text_of("path") {
            Some(p) => if p.is_empty() {
                None
            } else {
                Some(p.to_owned())
            },
            None => None,
        };
        Ok((pattern.to_owned(), at))
    }

    /// Tells a place that is not there.
    pub fn no_such_place(&self, path: &str) -> (r: LexError)
        ensures
            r@ == ErrorView::Tool("搜索路径不存在: "@ + path@),
    {
        LexError::Tool(cat2("搜索路径不存在: ", path))
    }
}

/// What the input of the tool looks like.
pub open spec fn grep_schema() -> JsonTree {
    object_schema(
        seq![
            ("pattern"@, described_as("string"@, "Rust regex 语法的搜索模式"@)),
            (
                "path"@,
                described_as(
                    "string"@,
                    "搜索起点:目录或单个文件,相对路径基于工作目录;缺省为工作目录"@,
                ),
            ),
        ],
        seq!["pattern"@],
    )
}

/// What the model is told of the tool.
pub const DESCRIPTION: &'static str =
    "在文件内容中搜索正则表达式(尊重 .gitignore,内置实现,跨平台一致)。返回每个匹配的\"文件路径:行号: 行内容\"。参数:path(可选,目录或文件,默认当前工作目录)";

impl Tool for GrepSearch {
    fn name(&self) -> (r: &str)
        ensures
            r@ == "grep_search"@,
    {
        "grep_search"
    }

    fn description(&self) -> (r: String)
        ensures
            r@ == DESCRIPTION@,
    {
        DESCRIPTION.to_owned()
    }

    fn schema(&self) -> (r: Json)
        ensures
            r.tree() == grep_schema(),
    {
        let mut p: Vec<(String, Json)> = Vec::new();
        p.push(("pattern".to_owned(), describe_as("string", "Rust regex 语法的搜索模式")));
        p.push(
            (
                "path".to_owned(),
                describe_as(
                    "string",
                    "搜索起点:目录或单个文件,相对路径基于工作目录;缺省为工作目录",
                ),
            ),
        );
        let mut q: Vec<&str> = Vec::new();
        q.push("pattern");
        assert(members(p@) =~= seq![
            ("pattern"@, described_as("string"@, "Rust regex 语法的搜索模式"@)),
            (
                "path"@,
                described_as(
                    "string"@,
                    "搜索起点:目录或单个文件,相对路径基于工作目录;缺省为工作目录"@,
                ),
            ),
        ]);
        assert(str_views(q@) =~= seq!["pattern"@]);
        make_schema(p, q)
    }

    fn read_only(&self) -> (r: bool)
        ensures
            r,
    {
        true
    }
}


/// What is searched is the pattern that was asked for, and only under the path that was asked for
/// where there is one; without a pattern nothing is searched.
pub proof fn law_search_is_what_was_asked(input: JsonTree, p: Seq<char>, at: Seq<char>)
    requires
        p.len() > 0,
        at.len() > 0,
        input.get("pattern"@) == Some(JsonTree::Text(p)),
    ensures
        input.get("path"@) == Some(JsonTree::Text(at)) ==> search_asked(input) == Ok::<
            (Seq<char>, Option<Seq<char>>),
            ErrorView,
        >((p, Some(at))),
        input.get("path"@) is None || input.get("path"@) == Some(JsonTree::Text(Seq::empty()))
            ==> search_asked(input) == Ok::<(Seq<char>, Option<Seq<char>>), ErrorView>((p, None)),
        search_asked(JsonTree::Object(Seq::empty())) is Err,
{
    let none = JsonTree::Object(Seq::empty());
    assert(none.get("pattern"@) is None);
}

} // verus!
