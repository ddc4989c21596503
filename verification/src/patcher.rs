//! Marker-delimited code patching for the catalog-maintenance tool: a
//! region of an existing source file, bounded by a start and an end marker
//! line, is replaced with freshly rendered entries; everything outside the
//! markers is kept verbatim.

use vstd::prelude::*;

use crate::text::{seq_views, starts_with, str_matches_at, str_starts_with};

verus! {

/// ASCII whitespace, as far as marker lines are concerned.
pub open spec fn is_ws(c: char) -> bool {
    c == ' ' || c == '\t' || c == '\r' || c == '\n'
}

/// `s` without its leading ASCII whitespace.
pub open spec fn trim_ws_start(s: Seq<char>) -> Seq<char>
    decreases s.len(),
{
    if s.len() > 0 && is_ws(s[0]) {
        trim_ws_start(s.drop_first())
    } else {
        s
    }
}

/// The rendered items, one per line.
pub open spec fn render_items(items: Seq<Seq<char>>) -> Seq<char>
    decreases items.len(),
{
    if items.len() == 0 {
        Seq::empty()
    } else {
        items[0] + "\n"@ + render_items(items.drop_first())
    }
}

/// The patched text: every line is kept and followed by a newline, except
/// that the lines after a start-marker line are dropped until an
/// end-marker line, and the rendered items stand in their place. With no
/// start-marker line nothing is inserted and the lines pass through
/// unchanged.
pub open spec fn patch_lines(
    lines: Seq<Seq<char>>,
    start: Seq<char>,
    end: Seq<char>,
    items: Seq<Seq<char>>,
    inserting: bool,
) -> Seq<char>
    decreases lines.len(),
{
    if lines.len() == 0 {
        Seq::empty()
    } else {
        let line = lines[0];
        let rest = lines.drop_first();
        if inserting && !starts_with(trim_ws_start(line), end) {
            patch_lines(rest, start, end, items, true)
        } else if starts_with(trim_ws_start(line), start) {
            line + "\n"@ + render_items(items) + patch_lines(rest, start, end, items, true)
        } else {
            line + "\n"@ + patch_lines(rest, start, end, items, false)
        }
    }
}

fn is_ws_char(c: char) -> (r: bool)
    ensures
        r == is_ws(c),
{
    c == ' ' || c == '\t' || c == '\r' || c == '\n'
}

/// Whether the line, after its leading whitespace, starts with the marker.
fn line_has_marker(line: &str, marker: &str) -> (r: bool)
    ensures
        r == starts_with(trim_ws_start(line@), marker@),
{
    let n = line.unicode_len();
    let mut i: usize = 0;
    proof {
        assert(line@.skip(0) =~= line@);
    }
    while i < n && is_ws_char(line.get_char(i))
        invariant
            n == line@.len(),
            i <= n,
            trim_ws_start(line@) == trim_ws_start(line@.skip(i as int)),
        decreases n - i,
    {
        proof {
            let rest = line@.skip(i as int);
            assert(rest[0] == line@[i as int]);
            assert(rest.drop_first() =~= line@.skip(i + 1));
        }
        i += 1;
    }
    proof {
        let rest = line@.skip(i as int);
        if i < n {
            assert(rest[0] == line@[i as int]);
            assert(!is_ws(rest[0]));
        }
        assert(trim_ws_start(line@) == rest);
    }
    let r = str_matches_at(line, i, marker);
    proof {
        let rest = line@.skip(i as int);
        let m = marker@.len() as int;
        if i + m <= n {
            assert forall|k: int| 0 <= k < m implies #[trigger] rest.subrange(0, m)[k] == line@[i
                + k] by {
                assert(rest.subrange(0, m)[k] == rest[k]);
                assert(rest[k] == line@[i + k]);
            }
            if r {
                assert forall|k: int| 0 <= k < m implies #[trigger] rest.subrange(0, m)[k]
                    == marker@[k] by {
                    assert(line@.subrange(i as int, i + m)[k] == line@[i + k]);
                }
                assert(rest.subrange(0, m) =~= marker@);
            } else {
                if starts_with(rest, marker@) {
                    assert forall|k: int| 0 <= k < m implies #[trigger] line@.subrange(
                        i as int,
                        i + m,
                    )[k] == marker@[k] by {
                        assert(line@.subrange(i as int, i + m)[k] == line@[i + k]);
                        assert(rest.subrange(0, m)[k] == rest[k]);
                    }
                    assert(line@.subrange(i as int, i + m) =~= marker@);
                }
            }
        } else {
            assert(rest.len() < marker@.len());
        }
    }
    r
}

/// Whether the patch state machine, run over the lines from the given
/// state, ends still inside a marker-delimited region: some start-marker
/// line is never followed by an end-marker line, so everything after it
/// would be dropped.
pub open spec fn leaves_inserting(
    lines: Seq<Seq<char>>,
    start: Seq<char>,
    end: Seq<char>,
    inserting: bool,
) -> bool
    decreases lines.len(),
{
    if lines.len() == 0 {
        inserting
    } else {
        let line = lines[0];
        let rest = lines.drop_first();
        if inserting && !starts_with(trim_ws_start(line), end) {
            leaves_inserting(rest, start, end, true)
        } else if starts_with(trim_ws_start(line), start) {
            leaves_inserting(rest, start, end, true)
        } else {
            leaves_inserting(rest, start, end, false)
        }
    }
}

/// A marker-delimited region of one source file, named by the file's path
/// and the two marker strings.
pub struct Generator {
    pub path: &'static str,
    pub start_seq: &'static str,
    pub end_seq: &'static str,
}

impl Generator {
    /// Whether these lines would leave a region unterminated: a
    /// start-marker line with no end-marker line after it. Such a file
    /// would lose every line after the start marker, so the patch refuses
    /// it; callers test this first and treat it as a fatal build error.
    pub fn has_unterminated_region(&self, lines: &Vec<String>) -> (r: bool)
        ensures
            r == leaves_inserting(seq_views(lines@), self.start_seq@, self.end_seq@, false),
    {
        let ghost lviews = seq_views(lines@);
        let mut inserting = false;
        let n = lines.len();
        let mut i: usize = 0;
        proof {
            assert(lviews.skip(0) =~= lviews);
        }
        while i < n
            invariant
                lviews == seq_views(lines@),
                n == lviews.len(),
                i <= n,
                leaves_inserting(lviews, self.start_seq@, self.end_seq@, false)
                    == leaves_inserting(
                    lviews.skip(i as int),
                    self.start_seq@,
                    self.end_seq@,
                    inserting,
                ),
            decreases n - i,
        {
            let ghost rest = lviews.skip(i as int);
            proof {
                assert(seq_views(lines@)[i as int] == lines@[i as int]@);
                assert(rest[0] == lviews[i as int]);
                assert(rest.drop_first() =~= lviews.skip(i + 1));
            }
            let line = &lines[i];
            if inserting {
                if line_has_marker(line.as_str(), self.end_seq) {
                    inserting = line_has_marker(line.as_str(), self.start_seq);
                }
            } else {
                if line_has_marker(line.as_str(), self.start_seq) {
                    inserting = true;
                }
            }
            i += 1;
        }
        proof {
            assert(lviews.skip(n as int).len() == 0);
        }
        inserting
    }

    /// Rewrites the marker-delimited region: every line outside it is kept
    /// and followed by a newline; the start-marker line is followed by the
    /// rendered items, and the old lines up to the end-marker line are
    /// dropped. With no start-marker line nothing is inserted and the
    /// lines pass through unchanged; that silent pass-through is a known
    /// sharp edge of this format. Every region must be terminated: an
    /// unterminated one would drop all following lines, so such inputs
    /// are left out here and [`Self::has_unterminated_region`] tests for
    /// them.
    pub fn generate_features(&self, lines: &Vec<String>, rendered: &Vec<String>) -> (r: String)
        requires
            !leaves_inserting(seq_views(lines@), self.start_seq@, self.end_seq@, false),
        ensures
            r@ == patch_lines(
                seq_views(lines@),
                self.start_seq@,
                self.end_seq@,
                seq_views(rendered@),
                false,
            ),
    {
        let ghost lviews = seq_views(lines@);
        let ghost iviews = seq_views(rendered@);
        let mut result = String::new();
        let mut inserting = false;
        let n = lines.len();
        let mut i: usize = 0;
        proof {
            assert(lviews.skip(0) =~= lviews);
            assert(result@ + patch_lines(lviews, self.start_seq@, self.end_seq@, iviews, false)
                =~= patch_lines(lviews, self.start_seq@, self.end_seq@, iviews, false));
        }
        while i < n
            invariant
                lviews == seq_views(lines@),
                iviews == seq_views(rendered@),
                n == lviews.len(),
                i <= n,
                patch_lines(lviews, self.start_seq@, self.end_seq@, iviews, false) == result@
                    + patch_lines(
                    lviews.skip(i as int),
                    self.start_seq@,
                    self.end_seq@,
                    iviews,
                    inserting,
                ),
            decreases n - i,
        {
            let ghost rest = lviews.skip(i as int);
            proof {
                assert(seq_views(lines@)[i as int] == lines@[i as int]@);
                assert(rest[0] == lviews[i as int]);
                assert(rest.drop_first() =~= lviews.skip(i + 1));
            }
            let line = &lines[i];
            if inserting {
                if line_has_marker(line.as_str(), self.end_seq) {
                    inserting = false;
                    result.append(line.as_str());
                    result.append("\n");
                    if line_has_marker(line.as_str(), self.start_seq) {
                        inserting = true;
                        append_items(&mut result, rendered);
                    }
                } else {
                    // line of the old region: dropped
                }
            } else {
                result.append(line.as_str());
                result.append("\n");
                if line_has_marker(line.as_str(), self.start_seq) {
                    inserting = true;
                    append_items(&mut result, rendered);
                }
            }
            proof {
                assert(patch_lines(lviews, self.start_seq@, self.end_seq@, iviews, false)
                    =~= result@ + patch_lines(
                    lviews.skip(i + 1),
                    self.start_seq@,
                    self.end_seq@,
                    iviews,
                    inserting,
                ));
            }
            i += 1;
        }
        proof {
            assert(lviews.skip(n as int).len() == 0);
            assert(result@ + patch_lines(
                lviews.skip(n as int),
                self.start_seq@,
                self.end_seq@,
                iviews,
                inserting,
            ) =~= result@);
        }
        result
    }
}

/// Appends every rendered item followed by a newline.
fn append_items(out: &mut String, rendered: &Vec<String>)
    ensures
        final(out)@ == old(out)@ + render_items(seq_views(rendered@)),
{
    let ghost iviews = seq_views(rendered@);
    let n = rendered.len();
    let mut j: usize = 0;
    proof {
        assert(iviews.skip(0) =~= iviews);
    }
    while j < n
        invariant
            iviews == seq_views(rendered@),
            n == iviews.len(),
            j <= n,
            old(out)@ + render_items(iviews) == out@ + render_items(iviews.skip(j as int)),
        decreases n - j,
    {
        let ghost rest = iviews.skip(j as int);
        proof {
            assert(seq_views(rendered@)[j as int] == rendered@[j as int]@);
            assert(rest[0] == iviews[j as int]);
            assert(rest.drop_first() =~= iviews.skip(j + 1));
        }
        out.append(rendered[j].as_str());
        out.append("\n");
        proof {
            assert(old(out)@ + render_items(iviews) =~= out@ + render_items(
                iviews.skip(j + 1),
            ));
        }
        j += 1;
    }
    proof {
        assert(iviews.skip(n as int).len() == 0);
        assert(out@ + render_items(iviews.skip(n as int)) =~= out@);
    }
}

} // verus!
