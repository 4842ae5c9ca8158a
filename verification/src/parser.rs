//! The template-file reader's pure half: validating the file name shape and
//! turning raw file text into the trimmed, comment-free lines the tree is
//! built from. Opening and reading the file itself is I/O and stays with
//! the caller.

use vstd::prelude::*;

use crate::seq_facts::{lemma_filter_all_or_none, lemma_filter_push};
use crate::strings::{count_char, count_char_spec, split_char, split_spec, trim, trim_spec};
use vstd::string::StrSliceExecFns;

verus! {

/// The part of a path after its last separator, with either slash accepted.
pub open spec fn file_component(s: Seq<char>) -> Seq<char>
    decreases s.len(),
{
    if s.len() == 0 {
        s
    } else if s.last() == '/' || s.last() == '\\' {
        Seq::empty()
    } else {
        file_component(s.drop_last()).push(s.last())
    }
}

/// A well-formed template file name: the path's file name holds exactly one
/// dot, so the name carries exactly one extension.
pub open spec fn valid_template_name(s: Seq<char>) -> bool {
    count_char_spec(file_component(s), '.') == 1
}

/// A line the parser keeps: non-empty after trimming, and no comment.
pub open spec fn keeps_line(l: Seq<char>) -> bool {
    l.len() > 0 && !(l.len() >= 2 && l[0] == '/' && l[1] == '/')
}

/// What parsing raw template text yields: its lines, each trimmed, with
/// blank lines and comment lines dropped.
pub open spec fn parse_data_spec(data: Seq<char>) -> Seq<Seq<char>> {
    split_spec(data, '\n').map_values(|l: Seq<char>| trim_spec(l)).filter(
        |l: Seq<char>| keeps_line(l),
    )
}

/// Reads template files: validates their name and splits their text into
/// the lines handed to the tokenizer.
#[derive(Debug)]
pub struct Parser {
    pub ext: String,
}

impl Parser {
    pub fn new(ext: String) -> (p: Parser)
        ensures
            p.ext@ == ext@,
    {
        Parser { ext }
    }

    /// Whether `dest` names a file with exactly one extension — the shape a
    /// template file name must have.
    pub fn valid_file_name(&self, dest: &str) -> (r: bool)
        ensures
            r == valid_template_name(dest@),
    {
        let len = dest.unicode_len();
        let mut start: usize = 0;
        let mut i: usize = 0;
        proof {
            assert(dest@.take(0) =~= Seq::<char>::empty());
            assert(dest@.subrange(0, 0) =~= Seq::<char>::empty());
        }
        while i < len
            invariant
                0 <= start <= i <= len,
                len == dest@.len(),
                file_component(dest@.take(i as int)) == dest@.subrange(start as int, i as int),
            decreases len - i,
        {
            let c = dest.get_char(i);
            proof {
                assert(dest@.take(i + 1).drop_last() =~= dest@.take(i as int));
                assert(dest@.take(i + 1).last() == dest@[i as int]);
            }
            if c == '/' || c == '\\' {
                start = i + 1;
                proof {
                    assert(dest@.subrange(i + 1, i + 1) =~= Seq::<char>::empty());
                }
            } else {
                proof {
                    assert(dest@.subrange(start as int, i + 1) =~= dest@.subrange(
                        start as int,
                        i as int,
                    ).push(dest@[i as int]));
                }
            }
            i = i + 1;
        }
        proof {
            assert(dest@.take(len as int) =~= dest@);
        }
        let component = dest.substring_char(start, len);
        count_char(component, '.') == 1
    }

    /// Splits raw template text into lines, trims each, and drops blank
    /// lines and comment lines.
    pub fn parse_data(&self, data: String) -> (r: Vec<String>)
        ensures
            r.deep_view() == parse_data_spec(data@),
    {
        let lines = split_char(data.as_str(), '\n');
        let ghost lv = lines.deep_view();
        let ghost tr = |l: Seq<char>| trim_spec(l);
        let ghost keep = |l: Seq<char>| keeps_line(l);
        let mut out: Vec<String> = Vec::new();
        let mut i: usize = 0;
        proof {
            assert(lv.take(0).map_values(tr) =~= Seq::<Seq<char>>::empty());
            lemma_filter_all_or_none(lv.take(0).map_values(tr), keep);
            assert(out.deep_view() =~= Seq::<Seq<char>>::empty());
        }
        while i < lines.len()
            invariant
                0 <= i <= lines.len(),
                lv == lines.deep_view(),
                lv == split_spec(data@, '\n'),
                tr == (|l: Seq<char>| trim_spec(l)),
                keep == (|l: Seq<char>| keeps_line(l)),
                out.deep_view() == lv.take(i as int).map_values(tr).filter(keep),
            decreases lines.len() - i,
        {
            let t = trim(lines[i].as_str());
            proof {
                assert(t@ == trim_spec(lv[i as int]));
                assert(lv.take(i + 1).map_values(tr) =~= lv.take(i as int).map_values(tr).push(
                    trim_spec(lv[i as int]),
                ));
                lemma_filter_push(lv.take(i as int).map_values(tr), keep, trim_spec(lv[i as int]));
            }
            let tlen = t.as_str().unicode_len();
            let is_comment = tlen >= 2 && t.as_str().get_char(0) == '/' && t.as_str().get_char(1)
                == '/';
            if tlen > 0 && !is_comment {
                out.push(t);
                proof {
                    assert(keeps_line(trim_spec(lv[i as int])));
                    assert(out.deep_view() =~= lv.take(i + 1).map_values(tr).filter(keep));
                }
            } else {
                proof {
                    assert(!keeps_line(trim_spec(lv[i as int])));
                }
            }
            i = i + 1;
        }
        proof {
            assert(lv.take(lines@.len() as int) =~= lv);
        }
        out
    }
}

} // verus!
