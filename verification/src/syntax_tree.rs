//! The syntax tree of a template file: the tree is the whole file, a branch
//! is one section, and a node is one line.

use vstd::prelude::*;

use crate::strings::{split_char, split_spec};
use crate::token::{section_of, token_of, SectionIdentity, Token, TokenView, UnknownSectionError};
use vstd::string::StrSliceExecFns;

verus! {

/// Mathematical model of a [`Node`].
pub struct NodeView {
    pub words: Seq<Seq<char>>,
    pub current_token: TokenView,
    pub text: Seq<char>,
}

/// What a line becomes as a node: its words, split at single spaces, and
/// the classification of its first word.
pub open spec fn node_of_line(line: Seq<char>) -> NodeView {
    let words = split_spec(line, ' ');
    NodeView { words, current_token: token_of(words[0]), text: words[0] }
}

/// One line of a section: the line's words and the token of its first word.
#[derive(Clone, Debug)]
pub struct Node {
    words: Vec<String>,

    pub current_token: Token,
    pub text: String,
}

impl View for Node {
    type V = NodeView;

    closed spec fn view(&self) -> NodeView {
        NodeView {
            words: self.words.deep_view(),
            current_token: self.current_token@,
            text: self.text@,
        }
    }
}

impl DeepView for Node {
    type V = NodeView;

    open spec fn deep_view(&self) -> NodeView {
        self.view()
    }
}

/// The classification of every word of a line, in order, each beside its
/// text.
pub open spec fn token_pairs(words: Seq<Seq<char>>) -> Seq<(TokenView, Seq<char>)> {
    words.map_values(|w: Seq<char>| (token_of(w), w))
}

impl Node {
    /// Splits one line into its words and classifies the first.
    pub fn new(line: String) -> (n: Node)
        ensures
            n@ == node_of_line(line@),
    {
        let words = split_char(line.as_str(), ' ');
        let first_keyword = words[0].clone();
        let tkn = Token::from(first_keyword.clone());
        let n = Node { words, current_token: tkn, text: first_keyword };
        proof {
            assert(n@.words =~= node_of_line(line@).words);
        }
        n
    }

    /// The words of the line, left exactly as split.
    pub fn get_words(&self) -> (r: Vec<String>)
        ensures
            r.deep_view() == self@.words,
    {
        let r = self.words.clone();
        proof {
            assert(r.deep_view() =~= self.words.deep_view());
        }
        r
    }

    /// Every word of the line beside its token, in line order. This is the
    /// traversal the interpreter walks.
    pub fn pairs(&self) -> (r: Vec<(Token, String)>)
        ensures
            r.deep_view() == token_pairs(self@.words),
    {
        let mut r: Vec<(Token, String)> = Vec::new();
        let mut i: usize = 0;
        proof {
            assert(r.deep_view() =~= token_pairs(self@.words.take(0)));
        }
        while i < self.words.len()
            invariant
                0 <= i <= self.words.len(),
                self@.words == self.words.deep_view(),
                r.deep_view() == token_pairs(self@.words.take(i as int)),
            decreases self.words.len() - i,
        {
            proof {
                assert(r.deep_view().len() == i);
                assert(r@.len() == i);
            }
            let w = self.words[i].clone();
            let tk = Token::from(w.clone());
            r.push((tk, w));
            proof {
                let dv = self@.words;
                assert(r@[i as int]@ == (tk@, w@));
                assert(w@ == dv[i as int]);
                assert forall|k: int| 0 <= k < i + 1 implies r.deep_view()[k] == token_pairs(
                    dv.take(i + 1),
                )[k] by {
                    if k < i {
                        assert(r.deep_view()[k] == token_pairs(dv.take(i as int))[k]);
                        assert(dv.take(i as int)[k] == dv.take(i + 1)[k]);
                    } else {
                        assert(r.deep_view()[k] == (tk@, w@));
                        assert(token_pairs(dv.take(i + 1))[k] == (token_of(dv[k]), dv[k]));
                    }
                }
                assert(r.deep_view() =~= token_pairs(dv.take(i + 1)));
            }
            i = i + 1;
        }
        proof {
            assert(self@.words.take(self.words.len() as int) =~= self@.words);
        }
        r
    }
}

/// Mathematical model of a [`Branch`].
pub struct BranchView {
    pub section_kind: SectionIdentity,
    pub nodes: Seq<NodeView>,
}

/// One section of the file: its identity and one node per line.
#[derive(Clone, Debug)]
pub struct Branch {
    pub section_kind: SectionIdentity,
    pub nodes: Vec<Node>,
}

impl View for Branch {
    type V = BranchView;

    open spec fn view(&self) -> BranchView {
        BranchView { section_kind: self.section_kind, nodes: self.nodes.deep_view() }
    }
}

impl DeepView for Branch {
    type V = BranchView;

    open spec fn deep_view(&self) -> BranchView {
        self.view()
    }
}

impl Branch {
    /// One node per line of the section, in order.
    pub fn construct(section: Vec<String>, section_kind: SectionIdentity) -> (b: Branch)
        ensures
            b@.section_kind == section_kind,
            b@.nodes == section.deep_view().map_values(|l: Seq<char>| node_of_line(l)),
    {
        let mut nodes: Vec<Node> = Vec::new();
        let mut i: usize = 0;
        proof {
            assert(nodes.deep_view() =~= section.deep_view().take(0).map_values(
                |l: Seq<char>| node_of_line(l),
            ));
        }
        while i < section.len()
            invariant
                0 <= i <= section.len(),
                nodes.deep_view() == section.deep_view().take(i as int).map_values(
                    |l: Seq<char>| node_of_line(l),
                ),
            decreases section.len() - i,
        {
            proof {
                assert(nodes.deep_view().len() == i);
                assert(nodes@.len() == i);
            }
            let line = section[i].clone();
            let node = Node::new(line);
            nodes.push(node);
            proof {
                let dv = section.deep_view();
                let f = |l: Seq<char>| node_of_line(l);
                assert(nodes@[i as int]@ == node_of_line(dv[i as int]));
                assert forall|k: int| 0 <= k < i + 1 implies nodes.deep_view()[k] == dv.take(
                    i + 1,
                ).map_values(f)[k] by {
                    if k < i {
                        assert(nodes.deep_view()[k] == dv.take(i as int).map_values(f)[k]);
                        assert(dv.take(i as int)[k] == dv.take(i + 1)[k]);
                    } else {
                        assert(nodes.deep_view()[k] == node_of_line(dv[k]));
                        assert(dv.take(i + 1).map_values(f)[k] == node_of_line(dv[k]));
                    }
                }
                assert(nodes.deep_view() =~= dv.take(i + 1).map_values(f));
            }
            i = i + 1;
        }
        proof {
            assert(section.deep_view().take(section.len() as int) =~= section.deep_view());
        }
        Branch { section_kind, nodes }
    }
}

/// Whether a line opens a section.
pub open spec fn is_header(line: Seq<char>) -> bool {
    line.len() >= 2 && line[0] == '_' && line[1] == '_'
}

/// The word that names a header line's section.
pub open spec fn header_name(line: Seq<char>) -> Seq<char> {
    split_spec(line, ' ')[0]
}

/// The lines of the section body that starts at line `j`: everything up to
/// the next header, or to the end of the file.
pub open spec fn body_after(lines: Seq<Seq<char>>, j: int) -> Seq<Seq<char>>
    decreases lines.len() - j,
    when 0 <= j <= lines.len()
{
    if j >= lines.len() || is_header(lines[j]) {
        Seq::empty()
    } else {
        seq![lines[j]] + body_after(lines, j + 1)
    }
}

/// The branches of the file, read from line `i` on: one per header line, in
/// file order, each holding the nodes of its body — or the name of the
/// first header that opens no known section.
pub open spec fn branches_from(lines: Seq<Seq<char>>, i: int) -> Result<Seq<BranchView>, Seq<char>>
    decreases lines.len() - i,
    when 0 <= i <= lines.len()
{
    if i >= lines.len() {
        Ok(Seq::empty())
    } else if !is_header(lines[i]) {
        branches_from(lines, i + 1)
    } else {
        let name = header_name(lines[i]);
        let kind = section_of(name);
        if kind is UnknownSection {
            Err(name)
        } else {
            match branches_from(lines, i + 1) {
                Ok(rest) => Ok(
                    seq![
                        BranchView {
                            section_kind: kind,
                            nodes: body_after(lines, i + 1).map_values(
                                |l: Seq<char>| node_of_line(l),
                            ),
                        },
                    ] + rest,
                ),
                Err(e) => Err(e),
            }
        }
    }
}

/// Mathematical model of a [`Tree`].
pub struct TreeView {
    pub branches: Seq<BranchView>,
}

/// The whole template file: one branch per section.
#[derive(Clone, Debug)]
pub struct Tree {
    pub branches: Vec<Branch>,
}

impl View for Tree {
    type V = TreeView;

    open spec fn view(&self) -> TreeView {
        TreeView { branches: self.branches.deep_view() }
    }
}

fn line_is_header(line: &str) -> (r: bool)
    ensures
        r == is_header(line@),
{
    line.unicode_len() >= 2 && line.get_char(0) == '_' && line.get_char(1) == '_'
}

impl Tree {
    /// Builds one branch per section of the (already line-split) file data,
    /// in file order — or reports the first header that opens no known
    /// section.
    pub fn construct(file_data: Vec<String>) -> (r: Result<Tree, UnknownSectionError>)
        ensures
            match r {
                Ok(t) => branches_from(file_data.deep_view(), 0) == Ok::<_, Seq<char>>(t@.branches),
                Err(e) => branches_from(file_data.deep_view(), 0) == Err::<Seq<BranchView>, _>(e@),
            },
    {
        let ghost lines = file_data.deep_view();
        let mut branches: Vec<Branch> = Vec::new();
        let mut idx: usize = 0;
        proof {
            assert(branches.deep_view() =~= Seq::<BranchView>::empty());
        }
        while idx < file_data.len()
            invariant
                0 <= idx <= file_data.len(),
                lines == file_data.deep_view(),
                match branches_from(lines, idx as int) {
                    Ok(rest) => branches_from(lines, 0) == Ok::<_, Seq<char>>(
                        branches.deep_view() + rest,
                    ),
                    Err(e) => branches_from(lines, 0) == Err::<Seq<BranchView>, _>(e),
                },
            decreases file_data.len() - idx,
        {
            let line = &file_data[idx];
            if line_is_header(line.as_str()) {
                let parts = split_char(line.as_str(), ' ');
                let sect_name = parts[0].clone();
                proof {
                    assert(sect_name@ == header_name(lines[idx as int]));
                }
                let mut body: Vec<String> = Vec::new();
                let mut j = idx + 1;
                proof {
                    assert(body.deep_view() + body_after(lines, j as int) =~= body_after(
                        lines,
                        idx + 1,
                    ));
                }
                while j < file_data.len() && !line_is_header(file_data[j].as_str())
                    invariant
                        idx + 1 <= j <= file_data.len(),
                        lines == file_data.deep_view(),
                        body_after(lines, idx + 1) == body.deep_view() + body_after(
                            lines,
                            j as int,
                        ),
                    decreases file_data.len() - j,
                {
                    let ghost before = body.deep_view();
                    body.push(file_data[j].clone());
                    proof {
                        assert(body_after(lines, j as int) == seq![lines[j as int]] + body_after(
                            lines,
                            j + 1,
                        ));
                        assert(body.deep_view() =~= before.push(lines[j as int]));
                        assert(before + (seq![lines[j as int]] + body_after(lines, j + 1))
                            =~= body.deep_view() + body_after(lines, j + 1));
                    }
                    j = j + 1;
                }
                proof {
                    assert(body_after(lines, j as int) =~= Seq::<Seq<char>>::empty());
                    assert(body.deep_view() + Seq::<Seq<char>>::empty() =~= body.deep_view());
                    assert(body.deep_view() == body_after(lines, idx + 1));
                }
                let sect = SectionIdentity::from(sect_name.clone());
                match sect.unknown(sect_name) {
                    Ok(_) => {
                        let ghost before = branches.deep_view();
                        let branch = Branch::construct(body, sect);
                        branches.push(branch);
                        proof {
                            assert(branches.deep_view() =~= before.push(branch@));
                            if branches_from(lines, idx + 1) is Ok {
                                let rest = branches_from(lines, idx + 1)->Ok_0;
                                assert(branches_from(lines, idx as int) == Ok::<_, Seq<char>>(
                                    seq![branch@] + rest,
                                ));
                                assert(before + (seq![branch@] + rest) =~= branches.deep_view()
                                    + rest);
                            }
                        }
                    },
                    Err(e) => {
                        return Err(e);
                    },
                }
            }
            idx = idx + 1;
        }
        proof {
            assert(branches_from(lines, idx as int) == Ok::<Seq<BranchView>, Seq<char>>(
                Seq::empty(),
            ));
            assert(branches.deep_view() + Seq::<BranchView>::empty() =~= branches.deep_view());
        }
        Ok(Tree { branches })
    }
}

} // verus!
