//! Greedy word-wrap: split text on whitespace and accumulate words onto
//! lines of bounded pixel width.
//!
//! Word widths are measured by an external glyph-metrics provider at a
//! fixed font scale and handed in as plain integers in `SUBPX` units per
//! pixel; the wrap itself is a pure function of those widths.

use vstd::prelude::*;
use vstd::string::{StrSliceExecFns, StringExecFns};

verus! {

/// Whether a character counts as whitespace for word splitting (the
/// Unicode white-space property).
pub uninterp spec fn is_space(c: char) -> bool;

/// Relies on char::is_whitespace: whether the character has the Unicode
/// white-space property, a function of the character alone.
#[verifier::external_body]
pub(crate) fn is_whitespace_char(c: char) -> (b: bool)
    ensures
        b == is_space(c),
{
    c.is_whitespace()
}

/// The words of `s` from position `i` on, given the unfinished word `cur`
/// built so far and the finished words `acc`: maximal runs of
/// non-whitespace characters, in order.
pub open spec fn spec_split_from(
    s: Seq<char>,
    i: int,
    cur: Seq<char>,
    acc: Seq<Seq<char>>,
) -> Seq<Seq<char>>
    decreases s.len() - i,
{
    if i < 0 || i >= s.len() {
        if cur.len() > 0 {
            acc.push(cur)
        } else {
            acc
        }
    } else if is_space(s[i]) {
        if cur.len() > 0 {
            spec_split_from(s, i + 1, Seq::empty(), acc.push(cur))
        } else {
            spec_split_from(s, i + 1, Seq::empty(), acc)
        }
    } else {
        spec_split_from(s, i + 1, cur.push(s[i]), acc)
    }
}

/// The whitespace-separated words of `s`, in order.
pub open spec fn spec_split(s: Seq<char>) -> Seq<Seq<char>> {
    spec_split_from(s, 0, Seq::empty(), Seq::empty())
}

/// Every word that splitting produces is nonempty, provided the words
/// finished so far are.
proof fn lemma_split_from_nonempty(s: Seq<char>, i: int, cur: Seq<char>, acc: Seq<Seq<char>>)
    requires
        forall|k: int| 0 <= k < acc.len() ==> #[trigger] acc[k].len() > 0,
    ensures
        forall|k: int|
            0 <= k < spec_split_from(s, i, cur, acc).len() ==> #[trigger] spec_split_from(
                s,
                i,
                cur,
                acc,
            )[k].len() > 0,
    decreases s.len() - i,
{
    if i < 0 || i >= s.len() {
    } else if is_space(s[i]) {
        if cur.len() > 0 {
            lemma_split_from_nonempty(s, i + 1, Seq::empty(), acc.push(cur));
            assert(spec_split_from(s, i, cur, acc) == spec_split_from(
                s,
                i + 1,
                Seq::empty(),
                acc.push(cur),
            ));
        } else {
            lemma_split_from_nonempty(s, i + 1, Seq::empty(), acc);
            assert(spec_split_from(s, i, cur, acc) == spec_split_from(s, i + 1, Seq::empty(), acc));
        }
    } else {
        lemma_split_from_nonempty(s, i + 1, cur.push(s[i]), acc);
        assert(spec_split_from(s, i, cur, acc) == spec_split_from(s, i + 1, cur.push(s[i]), acc));
    }
}

/// Every word of a split is nonempty.
pub proof fn lemma_split_words_nonempty(s: Seq<char>)
    ensures
        forall|k: int| 0 <= k < spec_split(s).len() ==> #[trigger] spec_split(s)[k].len() > 0,
{
    lemma_split_from_nonempty(s, 0, Seq::empty(), Seq::empty());
}

/// Split `text` into its whitespace-separated words. Whitespace runs are
/// not preserved; each word is a maximal run of non-whitespace characters.
pub fn split_words(text: &str) -> (words: Vec<String>)
    ensures
        words@.map_values(|w: String| w@) == spec_split(text@),
{
    let n: usize = text.unicode_len();
    let mut words: Vec<String> = Vec::new();
    let mut start: usize = 0;
    let mut in_word: bool = false;
    let mut i: usize = 0;
    proof {
        assert(words@.map_values(|w: String| w@) =~= Seq::<Seq<char>>::empty());
    }
    while i < n
        invariant
            n == text@.len(),
            i <= n,
            in_word ==> start < i,
            !in_word ==> start == i,
            spec_split_from(
                text@,
                i as int,
                if in_word {
                    text@.subrange(start as int, i as int)
                } else {
                    Seq::<char>::empty()
                },
                words@.map_values(|w: String| w@),
            ) == spec_split(text@),
        decreases n - i,
    {
        let ghost cur_g: Seq<char> = if in_word {
            text@.subrange(start as int, i as int)
        } else {
            Seq::<char>::empty()
        };
        let ghost acc_g: Seq<Seq<char>> = words@.map_values(|w: String| w@);
        let c = text.get_char(i);
        if is_whitespace_char(c) {
            if in_word {
                let word: String = text.substring_char(start, i).to_owned();
                words.push(word);
                proof {
                    assert(words@.map_values(|w: String| w@) =~= acc_g.push(cur_g));
                }
                in_word = false;
            }
            start = i + 1;
        } else {
            if !in_word {
                start = i;
                in_word = true;
            }
            proof {
                assert(text@.subrange(start as int, i as int + 1) =~= cur_g.push(text@[i as int]));
            }
        }
        i = i + 1;
    }
    if in_word {
        let ghost acc_g: Seq<Seq<char>> = words@.map_values(|w: String| w@);
        let word: String = text.substring_char(start, n).to_owned();
        words.push(word);
        proof {
            assert(words@.map_values(|w: String| w@) =~= acc_g.push(
                text@.subrange(start as int, n as int),
            ));
        }
    }
    words
}

/// A single laid-out line of text with its pre-computed width in `SUBPX`
/// units per pixel.
///
/// The width is only valid at the exact font scale whose word widths were
/// handed to [`wrap_words`]; reuse at a different scale is a caller error.
#[derive(Debug, Clone)]
pub struct TextLine {
    pub text: String,
    pub width_units: u32,
}

/// Options controlling how text is broken into lines: the maximum line
/// width in `SUBPX` units per pixel, and the maximum number of lines.
/// Words beyond the line limit are appended to the final line regardless
/// of overflow; a limit of zero produces no lines at all.
#[derive(Debug, Clone)]
pub struct WrapOptions {
    pub max_width: u32,
    pub max_lines: usize,
}

impl Default for WrapOptions {
    /// 130 pixels wide, at most 3 lines.
    fn default() -> (opts: Self)
        ensures
            opts.max_width == 130 * 256,
            opts.max_lines == 3,
    {
        WrapOptions { max_width: 130 * 256, max_lines: 3 }
    }
}

/// Addition saturating at the width type's maximum.
pub open spec fn sat_add(a: int, b: int) -> int {
    if a + b > 0xFFFFFFFF {
        0xFFFFFFFF
    } else {
        a + b
    }
}

/// Width of a line after appending one more word behind a joining space.
pub open spec fn sat_join(cur_w: int, space_w: int, word_w: int) -> int {
    sat_add(sat_add(cur_w, space_w), word_w)
}

/// Addition saturating at `u32::MAX`.
fn sat_add_u32(a: u32, b: u32) -> (r: u32)
    ensures
        r as int == sat_add(a as int, b as int),
{
    if a <= 0xFFFFFFFFu32 - b {
        a + b
    } else {
        0xFFFFFFFFu32
    }
}

/// The lines that greedy wrapping produces from the words at positions
/// `i` onward, given the lines already flushed (`done`), the words
/// accumulated on the current line (`cur`, space-joined) and that line's
/// running width. Each line is paired with its width.
///
/// A word always joins an empty line. Once flushing one more line would
/// leave no room under the line limit, every remaining word joins the
/// current line regardless of overflow, so no word is ever dropped. A
/// word that does not fit behind the current line flushes it and starts
/// the next; a single word wider than the limit stands alone on its line.
pub open spec fn spec_wrap_from(
    words: Seq<Seq<char>>,
    widths: Seq<int>,
    space_w: int,
    max_width: int,
    max_lines: int,
    i: int,
    done: Seq<(Seq<char>, int)>,
    cur: Seq<char>,
    cur_w: int,
) -> Seq<(Seq<char>, int)>
    decreases words.len() - i,
{
    if i < 0 || i >= words.len() {
        if cur.len() > 0 {
            done.push((cur, cur_w))
        } else {
            done
        }
    } else {
        let word = words[i];
        let word_w = widths[i];
        if cur.len() == 0 {
            spec_wrap_from(words, widths, space_w, max_width, max_lines, i + 1, done, word, word_w)
        } else if done.len() + 1 >= max_lines {
            spec_wrap_from(
                words,
                widths,
                space_w,
                max_width,
                max_lines,
                i + 1,
                done,
                cur + seq![' '] + word,
                sat_join(cur_w, space_w, word_w),
            )
        } else if sat_join(cur_w, space_w, word_w) > max_width {
            spec_wrap_from(
                words,
                widths,
                space_w,
                max_width,
                max_lines,
                i + 1,
                done.push((cur, cur_w)),
                word,
                word_w,
            )
        } else {
            spec_wrap_from(
                words,
                widths,
                space_w,
                max_width,
                max_lines,
                i + 1,
                done,
                cur + seq![' '] + word,
                sat_join(cur_w, space_w, word_w),
            )
        }
    }
}

/// The lines that greedy wrapping produces from `words` with the given
/// per-word `widths`: empty for a line limit of zero, otherwise the
/// greedy accumulation starting from an empty first line.
pub open spec fn spec_wrap(
    words: Seq<Seq<char>>,
    widths: Seq<int>,
    space_w: int,
    max_width: int,
    max_lines: int,
) -> Seq<(Seq<char>, int)> {
    if max_lines <= 0 {
        Seq::empty()
    } else {
        spec_wrap_from(
            words,
            widths,
            space_w,
            max_width,
            max_lines,
            0,
            Seq::empty(),
            Seq::empty(),
            0,
        )
    }
}

/// The text contents of a sequence of wrapped lines.
pub open spec fn line_texts(lines: Seq<(Seq<char>, int)>) -> Seq<Seq<char>> {
    lines.map_values(|l: (Seq<char>, int)| l.0)
}

/// The views of a vector of [`TextLine`]s.
pub open spec fn line_views(lines: Seq<TextLine>) -> Seq<(Seq<char>, int)> {
    lines.map_values(|l: TextLine| (l.text@, l.width_units as int))
}

/// Greedy word-wrap over pre-measured word widths (in `SUBPX` units per
/// pixel, as measured at one fixed font scale, including a measured width
/// for the single joining space).
///
/// Produces exactly the lines of [`spec_wrap`]: at most `opts.max_lines`
/// lines, every word kept in order, each line paired with its
/// running-sum width.
pub fn wrap_words(
    words: &Vec<String>,
    widths: &Vec<u32>,
    space_w: u32,
    opts: &WrapOptions,
) -> (lines: Vec<TextLine>)
    requires
        words@.len() == widths@.len(),
    ensures
        line_views(lines@) == spec_wrap(
            words@.map_values(|w: String| w@),
            widths@.map_values(|w: u32| w as int),
            space_w as int,
            opts.max_width as int,
            opts.max_lines as int,
        ),
{
    let ghost ws: Seq<Seq<char>> = words@.map_values(|w: String| w@);
    let ghost wd: Seq<int> = widths@.map_values(|w: u32| w as int);
    let mut lines: Vec<TextLine> = Vec::new();
    proof {
        assert(line_views(lines@) =~= Seq::<(Seq<char>, int)>::empty());
    }
    if opts.max_lines == 0 {
        return lines;
    }
    let mut cur: String = String::new();
    let mut cur_w: u32 = 0;
    let mut i: usize = 0;
    while i < words.len()
        invariant
            words@.len() == widths@.len(),
            ws == words@.map_values(|w: String| w@),
            wd == widths@.map_values(|w: u32| w as int),
            i <= words@.len(),
            opts.max_lines >= 1,
            lines@.len() <= i,
            spec_wrap_from(
                ws,
                wd,
                space_w as int,
                opts.max_width as int,
                opts.max_lines as int,
                i as int,
                line_views(lines@),
                cur@,
                cur_w as int,
            ) == spec_wrap(
                ws,
                wd,
                space_w as int,
                opts.max_width as int,
                opts.max_lines as int,
            ),
        decreases words@.len() - i,
    {
        let ghost done_g: Seq<(Seq<char>, int)> = line_views(lines@);
        let ghost cur_g: Seq<char> = cur@;
        let word_w: u32 = widths[i];
        if cur.as_str().is_empty() {
            proof {
                assert(cur_g.len() == 0);
            }
            cur = words[i].clone();
            cur_w = word_w;
        } else if lines.len() + 1 >= opts.max_lines {
            cur.append(" ");
            cur.append(words[i].as_str());
            cur_w = sat_add_u32(sat_add_u32(cur_w, space_w), word_w);
            proof {
                reveal_strlit(" ");
                assert(cur@ =~= cur_g + seq![' '] + ws[i as int]);
            }
        } else {
            let trial: u32 = sat_add_u32(sat_add_u32(cur_w, space_w), word_w);
            if trial > opts.max_width {
                let line = TextLine { text: cur, width_units: cur_w };
                lines.push(line);
                proof {
                    assert(line_views(lines@) =~= done_g.push((cur_g, cur_w as int)));
                }
                cur = words[i].clone();
                cur_w = word_w;
            } else {
                cur.append(" ");
                cur.append(words[i].as_str());
                cur_w = trial;
                proof {
                    reveal_strlit(" ");
                    assert(cur@ =~= cur_g + seq![' '] + ws[i as int]);
                }
            }
        }
        i = i + 1;
    }
    if !cur.as_str().is_empty() {
        let ghost done_g: Seq<(Seq<char>, int)> = line_views(lines@);
        let ghost cur_g: Seq<char> = cur@;
        let line = TextLine { text: cur, width_units: cur_w };
        lines.push(line);
        proof {
            assert(line_views(lines@) =~= done_g.push((cur_g, cur_w as int)));
        }
    }
    lines
}

/// A sequence of texts joined by single spaces.
pub open spec fn join_with_spaces(ws: Seq<Seq<char>>) -> Seq<char>
    decreases ws.len(),
{
    if ws.len() == 0 {
        Seq::empty()
    } else if ws.len() == 1 {
        ws[0]
    } else {
        ws[0] + seq![' '] + join_with_spaces(ws.skip(1))
    }
}

/// Joining is indifferent to grouping: merging two adjacent texts into
/// one, with the joining space written inline, leaves the joined whole
/// unchanged.
proof fn lemma_join_merge(a: Seq<Seq<char>>, u: Seq<char>, v: Seq<char>, b: Seq<Seq<char>>)
    ensures
        join_with_spaces(a + seq![u, v] + b) == join_with_spaces(
            a + seq![u + seq![' '] + v] + b,
        ),
    decreases a.len(),
{
    let sp: Seq<char> = seq![' '];
    if a.len() == 0 {
        let l = a + seq![u, v] + b;
        let m = a + seq![u + sp + v] + b;
        assert(l.len() == 2 + b.len());
        assert(l[0] == u);
        assert(l.skip(1) =~= seq![v] + b);
        assert(join_with_spaces(l) == l[0] + sp + join_with_spaces(l.skip(1)));
        if b.len() == 0 {
            assert(l.skip(1) =~= seq![v]);
            assert(join_with_spaces(l.skip(1)) == v);
            assert(m =~= seq![u + sp + v]);
            assert(join_with_spaces(m) == u + sp + v);
        } else {
            let t = seq![v] + b;
            assert(t[0] == v);
            assert(t.skip(1) =~= b);
            assert(join_with_spaces(t) == v + sp + join_with_spaces(b));
            assert(m.len() == 1 + b.len());
            assert(m[0] == u + sp + v);
            assert(m.skip(1) =~= b);
            assert(join_with_spaces(m) == (u + sp + v) + sp + join_with_spaces(b));
            assert(u + sp + (v + sp + join_with_spaces(b)) =~= (u + sp + v) + sp
                + join_with_spaces(b));
        }
    } else {
        lemma_join_merge(a.skip(1), u, v, b);
        assert((a + seq![u, v] + b).skip(1) =~= a.skip(1) + seq![u, v] + b);
        assert((a + seq![u + sp + v] + b).skip(1) =~= a.skip(1) + seq![u + sp + v] + b);
        assert((a + seq![u, v] + b)[0] == a[0]);
        assert((a + seq![u + sp + v] + b)[0] == a[0]);
    }
}

/// What greedy wrapping promises from any intermediate state: no more
/// lines than the limit, only nonempty lines, at least one more line than
/// already flushed if anything is pending, and — the heart of the matter —
/// the joined output text equals the flushed lines, the pending line and
/// the remaining words, all joined by single spaces.
proof fn lemma_wrap_from_props(
    words: Seq<Seq<char>>,
    widths: Seq<int>,
    space_w: int,
    max_width: int,
    max_lines: int,
    i: int,
    done: Seq<(Seq<char>, int)>,
    cur: Seq<char>,
    cur_w: int,
)
    requires
        0 <= i <= words.len(),
        widths.len() == words.len(),
        max_lines >= 1,
        done.len() + 1 <= max_lines,
        forall|k: int| 0 <= k < done.len() ==> #[trigger] done[k].0.len() > 0,
        forall|j: int| i <= j < words.len() ==> #[trigger] words[j].len() > 0,
    ensures
        ({
            let r = spec_wrap_from(
                words,
                widths,
                space_w,
                max_width,
                max_lines,
                i,
                done,
                cur,
                cur_w,
            );
            &&& r.len() <= max_lines
            &&& r.len() >= done.len() + (if cur.len() > 0 || i < words.len() {
                1int
            } else {
                0int
            })
            &&& forall|k: int| 0 <= k < r.len() ==> #[trigger] r[k].0.len() > 0
            &&& join_with_spaces(line_texts(r)) == join_with_spaces(
                line_texts(done) + (if cur.len() > 0 {
                    seq![cur]
                } else {
                    Seq::<Seq<char>>::empty()
                }) + words.skip(i),
            )
        }),
    decreases words.len() - i,
{
    let sp: Seq<char> = seq![' '];
    let r = spec_wrap_from(words, widths, space_w, max_width, max_lines, i, done, cur, cur_w);
    if i >= words.len() {
        assert(words.skip(i) =~= Seq::<Seq<char>>::empty());
        if cur.len() > 0 {
            assert(line_texts(done.push((cur, cur_w))) =~= line_texts(done).push(cur));
            assert(line_texts(done) + seq![cur] + words.skip(i) =~= line_texts(done).push(cur));
        } else {
            assert(line_texts(done) + Seq::<Seq<char>>::empty() + words.skip(i) =~= line_texts(
                done,
            ));
        }
    } else {
        let word = words[i];
        let word_w = widths[i];
        assert(words.skip(i) =~= seq![word] + words.skip(i + 1));
        if cur.len() == 0 {
            lemma_wrap_from_props(
                words,
                widths,
                space_w,
                max_width,
                max_lines,
                i + 1,
                done,
                word,
                word_w,
            );
            assert(line_texts(done) + Seq::<Seq<char>>::empty() + words.skip(i) =~= line_texts(
                done,
            ) + seq![word] + words.skip(i + 1));
        } else if done.len() + 1 >= max_lines || !(sat_join(cur_w, space_w, word_w) > max_width) {
            lemma_wrap_from_props(
                words,
                widths,
                space_w,
                max_width,
                max_lines,
                i + 1,
                done,
                cur + sp + word,
                sat_join(cur_w, space_w, word_w),
            );
            lemma_join_merge(line_texts(done), cur, word, words.skip(i + 1));
            assert(line_texts(done) + seq![cur] + words.skip(i) =~= line_texts(done) + seq![
                cur,
                word,
            ] + words.skip(i + 1));
            assert(line_texts(done) + seq![cur + sp + word] + words.skip(i + 1) =~= line_texts(
                done,
            ) + seq![cur + sp + word] + words.skip(i + 1));
        } else {
            lemma_wrap_from_props(
                words,
                widths,
                space_w,
                max_width,
                max_lines,
                i + 1,
                done.push((cur, cur_w)),
                word,
                word_w,
            );
            assert(line_texts(done.push((cur, cur_w))) =~= line_texts(done).push(cur));
            assert(line_texts(done).push(cur) + seq![word] + words.skip(i + 1) =~= line_texts(
                done,
            ) + seq![cur] + words.skip(i));
            assert(forall|k: int|
                0 <= k < done.push((cur, cur_w)).len() ==> #[trigger] done.push(
                    (cur, cur_w),
                )[k].0.len() > 0);
        }
    }
}

/// Word-wrap drops no word and respects the line limit: the wrapped
/// lines, space-joined in order, spell out exactly the space-joined input
/// words; there are at most `max_lines` lines, none of them empty, and at
/// least one line whenever there is a word to place and the limit allows
/// any line at all. A limit of zero produces no lines.
pub proof fn lemma_wrap_complete(
    words: Seq<Seq<char>>,
    widths: Seq<int>,
    space_w: int,
    max_width: int,
    max_lines: int,
)
    requires
        widths.len() == words.len(),
        forall|j: int| 0 <= j < words.len() ==> #[trigger] words[j].len() > 0,
    ensures
        ({
            let r = spec_wrap(words, widths, space_w, max_width, max_lines);
            &&& r.len() <= max_lines || max_lines <= 0
            &&& max_lines <= 0 ==> r.len() == 0
            &&& forall|k: int| 0 <= k < r.len() ==> #[trigger] r[k].0.len() > 0
            &&& max_lines >= 1 ==> join_with_spaces(line_texts(r)) == join_with_spaces(words)
            &&& max_lines >= 1 && words.len() >= 1 ==> r.len() >= 1
        }),
{
    if max_lines >= 1 {
        lemma_wrap_from_props(
            words,
            widths,
            space_w,
            max_width,
            max_lines,
            0,
            Seq::empty(),
            Seq::empty(),
            0,
        );
        assert(line_texts(Seq::<(Seq<char>, int)>::empty()) =~= Seq::<Seq<char>>::empty());
        assert(line_texts(Seq::<(Seq<char>, int)>::empty()) + Seq::<Seq<char>>::empty()
            + words.skip(0) =~= words);
    }
}

/// The wrap law stated over raw text: however a text is wrapped, with
/// any word widths, the output has at most `max_lines` lines (none for a
/// limit of zero), and the lines, space-joined in order, spell out
/// exactly the text's whitespace-separated words, space-joined — no word
/// is ever dropped.
pub proof fn lemma_wrap_text_complete(
    text: Seq<char>,
    widths: Seq<int>,
    space_w: int,
    max_width: int,
    max_lines: int,
)
    requires
        widths.len() == spec_split(text).len(),
    ensures
        ({
            let r = spec_wrap(spec_split(text), widths, space_w, max_width, max_lines);
            &&& max_lines <= 0 ==> r.len() == 0
            &&& r.len() <= max_lines || max_lines <= 0
            &&& max_lines >= 1 ==> join_with_spaces(line_texts(r)) == join_with_spaces(
                spec_split(text),
            )
        }),
{
    lemma_split_words_nonempty(text);
    lemma_wrap_complete(spec_split(text), widths, space_w, max_width, max_lines);
}

} // verus!
