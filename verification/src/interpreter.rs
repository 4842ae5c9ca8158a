//! The interpreter: walks the syntax tree, resolves variables, and turns
//! tree nodes into executable actions — command lines for the shell and
//! file-system paths to create. Performing those actions is the caller's
//! business; here they are data.

use vstd::prelude::*;

use crate::strings::{contains_char, str_eq, words_contain};
use crate::syntax_tree::{token_pairs, Branch, BranchView, NodeView, Tree, TreeView};
use crate::executor::TasksExecutor;
use crate::schedular::{scheduled_order, TaskSchedular};
use crate::task::{Action, ActionView, Task, TaskView};
use crate::token::{token_of, SectionIdentity, Token, TokenView};
use vstd::string::StrSliceExecFns;

verus! {

/// Mathematical model of a [`CommandSerializer`].
pub struct CommandSerializerView {
    pub args: Seq<Seq<char>>,
    pub command_name: Seq<char>,
    pub defered: bool,
}

/// A command collected from the tree, not yet serialized into the single
/// argument list the shell receives.
#[derive(Debug)]
pub struct CommandSerializer {
    pub args: Vec<String>,

    pub command_name: String,
    pub defered: bool,
}

impl View for CommandSerializer {
    type V = CommandSerializerView;

    open spec fn view(&self) -> CommandSerializerView {
        CommandSerializerView {
            args: self.args.deep_view(),
            command_name: self.command_name@,
            defered: self.defered,
        }
    }
}

impl DeepView for CommandSerializer {
    type V = CommandSerializerView;

    open spec fn deep_view(&self) -> CommandSerializerView {
        self.view()
    }
}

impl Clone for CommandSerializer {
    fn clone(&self) -> (r: Self)
        ensures
            r@ == self@,
    {
        let args = self.args.clone();
        proof {
            assert(args.deep_view() =~= self.args.deep_view());
        }
        CommandSerializer {
            args,
            command_name: self.command_name.clone(),
            defered: self.defered,
        }
    }
}

/// Mathematical model of an [`ExecutableTerminalCommand`].
pub struct TerminalCommandView {
    pub args: Seq<Seq<char>>,
    pub defered: bool,
}

/// A fully serialized command line — the words handed to the platform shell
/// — and its deferred marker.
#[derive(Clone, Debug)]
pub struct ExecutableTerminalCommand(pub Vec<String>, pub bool);

impl View for ExecutableTerminalCommand {
    type V = TerminalCommandView;

    open spec fn view(&self) -> TerminalCommandView {
        TerminalCommandView { args: self.0.deep_view(), defered: self.1 }
    }
}

impl DeepView for ExecutableTerminalCommand {
    type V = TerminalCommandView;

    open spec fn deep_view(&self) -> TerminalCommandView {
        self.view()
    }
}

/// Mathematical model of an [`ExacutableFsAction`].
pub struct FsActionView {
    pub path: Seq<char>,
    pub is_file: bool,
    pub defered: bool,
}

/// One file-system action: the path to create, whether it is a file rather
/// than a directory, and its deferred marker.
#[derive(Clone, Debug)]
pub struct ExacutableFsAction(pub String, pub bool, pub bool);

impl View for ExacutableFsAction {
    type V = FsActionView;

    open spec fn view(&self) -> FsActionView {
        FsActionView { path: self.0@, is_file: self.1, defered: self.2 }
    }
}

impl DeepView for ExacutableFsAction {
    type V = FsActionView;

    open spec fn deep_view(&self) -> FsActionView {
        self.view()
    }
}

/// The strategy interface an executable action offers: perform the action
/// and hand back its printable output, or nothing on failure. The library
/// only fixes the shape; the impls perform I/O and live with the caller.
pub trait ExecutableCommand<O> {
    fn _execute(&self) -> Option<O>;
}

impl CommandSerializer {
    pub fn new(command_name: String, args: Vec<String>, defered: bool) -> (c: CommandSerializer)
        ensures
            c@.command_name == command_name@,
            c@.args == args.deep_view(),
            c@.defered == defered,
    {
        CommandSerializer { args, command_name, defered }
    }

    /// Drains this serializer into the single argument list the shell
    /// receives: the command name followed by its arguments.
    pub fn _serialize_to_cmd(&mut self) -> (r: ExecutableTerminalCommand)
        ensures
            r@.args == seq![old(self)@.command_name] + old(self)@.args,
            r@.defered == old(self)@.defered,
            final(self)@.args == Seq::<Seq<char>>::empty(),
            final(self)@.command_name == old(self)@.command_name,
            final(self)@.defered == old(self)@.defered,
    {
        let mut serilized_args: Vec<String> = Vec::new();
        serilized_args.push(self.command_name.clone());
        serilized_args.append(&mut self.args);
        proof {
            assert(serilized_args.deep_view() =~= seq![old(self)@.command_name] + old(
                self,
            )@.args);
            assert(self.args.deep_view() =~= Seq::<Seq<char>>::empty());
        }
        ExecutableTerminalCommand(serilized_args, self.defered)
    }
}

/// What `String::from_utf8_lossy` makes of a byte sequence: a pure function
/// of the bytes alone.
pub uninterp spec fn utf8_lossy_of(bytes: Seq<u8>) -> Seq<char>;

/// Relies on `String::from_utf8_lossy`: its result depends on the bytes
/// alone, and valid UTF-8 decodes exactly, with no replacement characters.
#[verifier::external_body]
fn utf8_lossy(bytes: Vec<u8>) -> (r: String)
    ensures
        r@ == utf8_lossy_of(bytes@),
        vstd::utf8::valid_utf8(bytes@) ==> r@ == vstd::utf8::decode_utf8(bytes@),
{
    String::from_utf8_lossy(&bytes).into_owned()
}

/// Mathematical model of a [`CmdOut`].
pub struct CmdOutView {
    pub stdout: Seq<char>,
    pub stderr: Seq<char>,
}

/// What a finished child process printed on its two output streams.
#[derive(Clone, Debug)]
pub struct CmdOut {
    stdout: String,
    stderr: String,
}

impl View for CmdOut {
    type V = CmdOutView;

    closed spec fn view(&self) -> CmdOutView {
        CmdOutView { stdout: self.stdout@, stderr: self.stderr@ }
    }
}

impl CmdOut {
    /// Decodes the two captured output streams; bytes that are not valid
    /// UTF-8 are decoded lossily.
    pub fn new(stdout: Vec<u8>, stderr: Vec<u8>) -> (c: CmdOut)
        ensures
            c@.stdout == utf8_lossy_of(stdout@),
            c@.stderr == utf8_lossy_of(stderr@),
    {
        let out = utf8_lossy(stdout);
        let err = utf8_lossy(stderr);
        CmdOut { stdout: out, stderr: err }
    }

    /// The captured standard output.
    pub fn stdout(&self) -> (r: &str)
        ensures
            r@ == self@.stdout,
    {
        self.stdout.as_str()
    }

    /// The captured standard error.
    pub fn stderr(&self) -> (r: &str)
        ensures
            r@ == self@.stderr,
    {
        self.stderr.as_str()
    }
}

/// Raised when the tree cannot be interpreted; says during which step.
#[derive(Clone, Debug)]
pub struct InterpreterError {
    when: String,
    reason: String,
}

/// Mathematical model of an [`InterpreterError`].
pub struct InterpreterErrorView {
    pub when: Seq<char>,
    pub reason: Seq<char>,
}

impl View for InterpreterError {
    type V = InterpreterErrorView;

    closed spec fn view(&self) -> InterpreterErrorView {
        InterpreterErrorView { when: self.when@, reason: self.reason@ }
    }
}

impl InterpreterError {
    pub fn new(when: &str, reason: &str) -> (e: InterpreterError)
        ensures
            e@.when == when@,
            e@.reason == reason@,
    {
        InterpreterError { when: when.to_owned(), reason: reason.to_owned() }
    }

    /// During which interpretation step the error arose.
    pub fn when(&self) -> (r: &str)
        ensures
            r@ == self@.when,
    {
        self.when.as_str()
    }

    /// What went wrong, for the caller to surface.
    pub fn reason(&self) -> (r: &str)
        ensures
            r@ == self@.reason,
    {
        self.reason.as_str()
    }
}


/// The value bound to `name`, where a later declaration of the same name
/// shadows an earlier one.
pub open spec fn var_lookup(vars: Seq<(Seq<char>, Seq<char>)>, name: Seq<char>) -> Option<
    Seq<char>,
>
    decreases vars.len(),
{
    if vars.len() == 0 {
        None
    } else if vars.last().0 == name {
        Some(vars.last().1)
    } else {
        var_lookup(vars.drop_last(), name)
    }
}

/// The words of a variable line with the `=` signs removed.
pub open spec fn node_var_words(n: NodeView) -> Seq<Seq<char>> {
    n.words.filter(|w: Seq<char>| !(token_of(w) is Assign))
}

/// A variable line is exactly three words, one of them `=`, and names both
/// a variable and a value.
pub open spec fn node_var_ok(n: NodeView) -> bool {
    n.words.len() == 3 && n.words.contains("="@) && node_var_words(n).len() >= 2
}

/// The variable bindings after reading a variables section from line `j`
/// on, added onto `vars` in line order.
pub open spec fn vars_of_branch(
    nodes: Seq<NodeView>,
    j: int,
    vars: Seq<(Seq<char>, Seq<char>)>,
) -> Result<Seq<(Seq<char>, Seq<char>)>, ()>
    decreases nodes.len() - j,
    when 0 <= j <= nodes.len()
{
    if j >= nodes.len() {
        Ok(vars)
    } else if !node_var_ok(nodes[j]) {
        Err(())
    } else {
        vars_of_branch(
            nodes,
            j + 1,
            vars.push((node_var_words(nodes[j])[0], node_var_words(nodes[j])[1])),
        )
    }
}

/// The variable bindings after reading every variables section from branch
/// `i` on.
pub open spec fn vars_from(
    branches: Seq<BranchView>,
    i: int,
    vars: Seq<(Seq<char>, Seq<char>)>,
) -> Result<Seq<(Seq<char>, Seq<char>)>, ()>
    decreases branches.len() - i,
    when 0 <= i <= branches.len()
{
    if i >= branches.len() {
        Ok(vars)
    } else if branches[i].section_kind is Variables {
        match vars_of_branch(branches[i].nodes, 0, vars) {
            Ok(vars2) => vars_from(branches, i + 1, vars2),
            Err(e) => Err(e),
        }
    } else {
        vars_from(branches, i + 1, vars)
    }
}

/// The arguments a script line passes, read from word `k` on: a `#name`
/// word becomes the variable's value, a plain word is passed as written
/// unless it repeats the command name, and keywords pass nothing.
pub open spec fn script_args(
    prs: Seq<(TokenView, Seq<char>)>,
    k: int,
    name: Seq<char>,
    vars: Seq<(Seq<char>, Seq<char>)>,
    args: Seq<Seq<char>>,
) -> Result<Seq<Seq<char>>, ()>
    decreases prs.len() - k,
    when 0 <= k <= prs.len()
{
    if k >= prs.len() {
        Ok(args)
    } else {
        match prs[k].0 {
            TokenView::Arg(s) => match var_lookup(vars, s.drop_first()) {
                None => Err(()),
                Some(v) => script_args(prs, k + 1, name, vars, args.push(v)),
            },
            TokenView::Skip => if prs[k].1 == name {
                script_args(prs, k + 1, name, vars, args)
            } else {
                script_args(prs, k + 1, name, vars, args.push(prs[k].1))
            },
            _ => script_args(prs, k + 1, name, vars, args),
        }
    }
}

/// What one script line becomes: its command, led by `DEFER` when deferred,
/// with its arguments resolved.
pub open spec fn script_of_node(n: NodeView, vars: Seq<(Seq<char>, Seq<char>)>) -> Result<
    CommandSerializerView,
    (),
> {
    if n.words.len() == 0 {
        Err(())
    } else {
        script_of_node_nonempty(n, vars)
    }
}

/// What a non-empty script line becomes.
pub open spec fn script_of_node_nonempty(n: NodeView, vars: Seq<(Seq<char>, Seq<char>)>) -> Result<
    CommandSerializerView,
    (),
> {
    let defered = token_of(n.words[0]) is DeferAction;
    if defered && n.words.len() < 2 {
        Err(())
    } else {
        let name = if defered {
            n.words[1]
        } else {
            n.words[0]
        };
        match script_args(token_pairs(n.words), 0, name, vars, Seq::empty()) {
            Ok(args) => Ok(CommandSerializerView { args, command_name: name, defered }),
            Err(e) => Err(e),
        }
    }
}

/// The commands of a scripts section from line `j` on, appended onto
/// `cmds` in line order.
pub open spec fn scripts_of_branch(
    nodes: Seq<NodeView>,
    j: int,
    vars: Seq<(Seq<char>, Seq<char>)>,
    cmds: Seq<CommandSerializerView>,
) -> Result<Seq<CommandSerializerView>, ()>
    decreases nodes.len() - j,
    when 0 <= j <= nodes.len()
{
    if j >= nodes.len() {
        Ok(cmds)
    } else {
        match script_of_node(nodes[j], vars) {
            Ok(c) => scripts_of_branch(nodes, j + 1, vars, cmds.push(c)),
            Err(e) => Err(e),
        }
    }
}

/// The words a demo line passes to the copy command: everything but the
/// copy and defer keywords.
pub open spec fn demo_args(words: Seq<Seq<char>>) -> Seq<Seq<char>> {
    words.filter(
        |w: Seq<char>| !(token_of(w) is CopyAction) && !(token_of(w) is DeferAction),
    )
}

/// What one demo line becomes: a copy command, deferred when led by
/// `DEFER`. The line must be at most four words, its copy keyword must
/// stand right after the optional defer keyword, and no word may hold a
/// forward slash.
pub open spec fn demo_of_node(n: NodeView) -> Result<CommandSerializerView, ()> {
    if n.words.len() == 0 || n.words.len() > 4 {
        Err(())
    } else {
        let first = token_of(n.words[0]);
        if first is DeferAction {
            if n.words.len() < 3 {
                Err(())
            } else {
                demo_checked(n, true, token_of(n.words[2]))
            }
        } else if first is Skip {
            if n.words.len() < 2 {
                Err(())
            } else {
                demo_checked(n, false, token_of(n.words[1]))
            }
        } else {
            Err(())
        }
    }
}

/// The checks shared by both demo line shapes.
pub open spec fn demo_checked(n: NodeView, defered: bool, second: TokenView) -> Result<
    CommandSerializerView,
    (),
> {
    if !(second is CopyAction) {
        Err(())
    } else if exists|i: int| 0 <= i < n.words.len() && (#[trigger] n.words[i]).contains('/') {
        Err(())
    } else {
        Ok(CommandSerializerView { args: demo_args(n.words), command_name: "copy"@, defered })
    }
}

/// The commands of a demo section from line `j` on.
pub open spec fn demos_of_branch(
    nodes: Seq<NodeView>,
    j: int,
    cmds: Seq<CommandSerializerView>,
) -> Result<Seq<CommandSerializerView>, ()>
    decreases nodes.len() - j,
    when 0 <= j <= nodes.len()
{
    if j >= nodes.len() {
        Ok(cmds)
    } else {
        match demo_of_node(nodes[j]) {
            Ok(c) => demos_of_branch(nodes, j + 1, cmds.push(c)),
            Err(e) => Err(e),
        }
    }
}

/// The word `DEFER` in any mixture of upper and lower case.
pub open spec fn is_defer_word(w: Seq<char>) -> bool {
    &&& w.len() == 5
    &&& (w[0] == 'D' || w[0] == 'd')
    &&& (w[1] == 'E' || w[1] == 'e')
    &&& (w[2] == 'F' || w[2] == 'f')
    &&& (w[3] == 'E' || w[3] == 'e')
    &&& (w[4] == 'R' || w[4] == 'r')
}

/// Folds the words of a directory line, from word `k` on, into the action
/// they describe: `FILE` asks for a file, `DEFER` defers, a `#name` word
/// resolves to the variable's value as the path, and a plain word is the
/// path as written; the last path named wins.
pub open spec fn dir_fold(
    prs: Seq<(TokenView, Seq<char>)>,
    k: int,
    vars: Seq<(Seq<char>, Seq<char>)>,
    path: Seq<char>,
    is_file: bool,
    defered: bool,
) -> Result<FsActionView, ()>
    decreases prs.len() - k,
    when 0 <= k <= prs.len()
{
    if k >= prs.len() {
        Ok(FsActionView { path, is_file, defered })
    } else {
        match prs[k].0 {
            TokenView::DeclareFile => dir_fold(prs, k + 1, vars, path, true, defered),
            TokenView::DeferAction => dir_fold(prs, k + 1, vars, path, is_file, true),
            TokenView::Arg(s) => match var_lookup(vars, s.drop_first()) {
                None => Err(()),
                Some(v) => dir_fold(prs, k + 1, vars, v, is_file, defered),
            },
            TokenView::Skip => dir_fold(prs, k + 1, vars, prs[k].1, is_file, defered),
            _ => dir_fold(prs, k + 1, vars, path, is_file, defered),
        }
    }
}

/// What one directory line becomes. The line must be at most three words,
/// and a three-word line must open with `DEFER` in some casing.
pub open spec fn dir_of_node(n: NodeView, vars: Seq<(Seq<char>, Seq<char>)>) -> Result<
    FsActionView,
    (),
> {
    if n.words.len() > 3 {
        Err(())
    } else if n.words.len() == 3 && !is_defer_word(n.words[0]) {
        Err(())
    } else {
        dir_fold(token_pairs(n.words), 0, vars, Seq::empty(), false, false)
    }
}

/// The actions of a directory section from line `j` on.
pub open spec fn dirs_of_branch(
    nodes: Seq<NodeView>,
    j: int,
    vars: Seq<(Seq<char>, Seq<char>)>,
    fs: Seq<FsActionView>,
) -> Result<Seq<FsActionView>, ()>
    decreases nodes.len() - j,
    when 0 <= j <= nodes.len()
{
    if j >= nodes.len() {
        Ok(fs)
    } else {
        match dir_of_node(nodes[j], vars) {
            Ok(a) => dirs_of_branch(nodes, j + 1, vars, fs.push(a)),
            Err(e) => Err(e),
        }
    }
}

/// The commands and file-system actions of every section from branch `i`
/// on, appended in branch order onto `cmds` and `fs`.
pub open spec fn actions_from(
    branches: Seq<BranchView>,
    i: int,
    vars: Seq<(Seq<char>, Seq<char>)>,
    cmds: Seq<CommandSerializerView>,
    fs: Seq<FsActionView>,
) -> Result<(Seq<CommandSerializerView>, Seq<FsActionView>), ()>
    decreases branches.len() - i,
    when 0 <= i <= branches.len()
{
    if i >= branches.len() {
        Ok((cmds, fs))
    } else {
        let b = branches[i];
        match b.section_kind {
            SectionIdentity::CurrentWorkingDirectory => match dirs_of_branch(
                b.nodes,
                0,
                vars,
                fs,
            ) {
                Ok(fs2) => actions_from(branches, i + 1, vars, cmds, fs2),
                Err(e) => Err(e),
            },
            SectionIdentity::Demostration => match demos_of_branch(b.nodes, 0, cmds) {
                Ok(cmds2) => actions_from(branches, i + 1, vars, cmds2, fs),
                Err(e) => Err(e),
            },
            SectionIdentity::Scripts => match scripts_of_branch(b.nodes, 0, vars, cmds) {
                Ok(cmds2) => actions_from(branches, i + 1, vars, cmds2, fs),
                Err(e) => Err(e),
            },
            _ => actions_from(branches, i + 1, vars, cmds, fs),
        }
    }
}

/// What interpreting a whole tree yields: the variables of every variables
/// section, then the commands and file-system actions of every other
/// section, in branch order.
pub open spec fn interpret_spec(tree: TreeView) -> Result<
    (Seq<CommandSerializerView>, Seq<FsActionView>),
    (),
> {
    match vars_from(tree.branches, 0, Seq::empty()) {
        Ok(vars) => actions_from(tree.branches, 0, vars, Seq::empty(), Seq::empty()),
        Err(e) => Err(e),
    }
}


/// Mathematical model of an [`Interpreter`].
pub struct InterpreterView {
    pub variables: Seq<(Seq<char>, Seq<char>)>,
    pub commands: Seq<CommandSerializerView>,
    pub fs_actions: Seq<FsActionView>,
    pub tree: TreeView,
}

/// Either buffer of collected work, for callers that pass one around whole.
#[derive(Clone, Debug)]
pub enum BufferType {
    CommandLine(Vec<CommandSerializer>),
    FsAction(Vec<ExacutableFsAction>),
}

/// Walks the syntax tree: variables first, then every section's actions,
/// collected into the command and file-system buffers.
#[derive(Debug)]
pub struct Interpreter {
    pub _variable_buf: Vec<(String, String)>,
    pub _commands_buf: Vec<CommandSerializer>,
    pub _fs_actions_buf: Vec<ExacutableFsAction>,

    pub syntax_tree: Tree,
}

impl View for Interpreter {
    type V = InterpreterView;

    open spec fn view(&self) -> InterpreterView {
        InterpreterView {
            variables: self._variable_buf.deep_view(),
            commands: self._commands_buf.deep_view(),
            fs_actions: self._fs_actions_buf.deep_view(),
            tree: self.syntax_tree@,
        }
    }
}

/// The value bound to `name`, where a later declaration shadows an earlier
/// one.
fn lookup_var(vars: &Vec<(String, String)>, name: &str) -> (r: Option<String>)
    ensures
        match var_lookup(vars.deep_view(), name@) {
            Some(v) => r is Some && r->0@ == v,
            None => r is None,
        },
{
    let ghost dv = vars.deep_view();
    let mut i: usize = vars.len();
    proof {
        assert(dv.take(vars.len() as int) =~= dv);
    }
    while i > 0
        invariant
            0 <= i <= vars.len(),
            dv == vars.deep_view(),
            var_lookup(dv, name@) == var_lookup(dv.take(i as int), name@),
        decreases i,
    {
        proof {
            assert(dv.take(i as int).last() == dv[i - 1]);
            assert(dv.take(i as int).drop_last() =~= dv.take(i - 1));
        }
        if str_eq(vars[i - 1].0.as_str(), name) {
            return Some(vars[i - 1].1.clone());
        }
        i = i - 1;
    }
    proof {
        assert(dv.take(0) =~= Seq::<(Seq<char>, Seq<char>)>::empty());
    }
    None
}

impl Interpreter {
    /// A fresh interpreter over `syntax_tree`, with empty buffers.
    pub fn construct(syntax_tree: Tree) -> (it: Interpreter)
        ensures
            it@.variables.len() == 0,
            it@.commands.len() == 0,
            it@.fs_actions.len() == 0,
            it@.tree == syntax_tree@,
    {
        Interpreter {
            _variable_buf: Vec::new(),
            _commands_buf: Vec::new(),
            _fs_actions_buf: Vec::new(),
            syntax_tree,
        }
    }

    /// Reads one variables section into `vars`, in line order.
    fn variable_parsing(vars: &mut Vec<(String, String)>, variable_branch: &Branch) -> (r: Result<
        (),
        InterpreterError,
    >)
        ensures
            match r {
                Ok(_) => vars_of_branch(variable_branch@.nodes, 0, old(vars).deep_view())
                    == Ok::<_, ()>(final(vars).deep_view()),
                Err(_) => vars_of_branch(variable_branch@.nodes, 0, old(vars).deep_view()) is Err,
            },
    {
        let ghost nv = variable_branch@.nodes;
        let nodes = &variable_branch.nodes;
        let mut j: usize = 0;
        while j < nodes.len()
            invariant
                0 <= j <= nodes.len(),
                nv == nodes.deep_view(),
                nv == variable_branch@.nodes,
                vars_of_branch(nv, 0, old(vars).deep_view()) == vars_of_branch(
                    nv,
                    j as int,
                    vars.deep_view(),
                ),
            decreases nodes.len() - j,
        {
            let node = &nodes[j];
            let words = node.get_words();
            let ghost wv = nv[j as int].words;
            proof {
                assert(node@ == nv[j as int]);
                assert(words.deep_view() == wv);
                assert(words@.len() == words.deep_view().len());
            }
            if words.len() != 3 {
                proof {
                    assert(!node_var_ok(nv[j as int]));
                    assert(vars_of_branch(nv, j as int, vars.deep_view()) is Err);
                }
                return Err(
                    InterpreterError::new(
                        "interpreting variables",
                        "expected exactly a name, an equals sign and a value",
                    ),
                );
            }
            if !words_contain(&words, "=") {
                proof {
                    assert(!node_var_ok(nv[j as int]));
                    assert(vars_of_branch(nv, j as int, vars.deep_view()) is Err);
                }
                return Err(
                    InterpreterError::new(
                        "interpreting variables",
                        "found no equals sign; only variable declarations may stand in this section",
                    ),
                );
            }
            let prs = node.pairs();
            let mut var: Vec<String> = Vec::new();
            let ghost keep = |w: Seq<char>| !(token_of(w) is Assign);
            let mut k: usize = 0;
            proof {
                assert(prs.deep_view() == token_pairs(wv));
                assert(prs.deep_view().len() == wv.len());
                assert(prs@.len() == prs.deep_view().len());
                assert(wv.take(0) =~= Seq::<Seq<char>>::empty());
                crate::seq_facts::lemma_filter_all_or_none(wv.take(0), keep);
                assert(var.deep_view() =~= Seq::<Seq<char>>::empty());
            }
            while k < prs.len()
                invariant
                    0 <= k <= prs.len(),
                    nv == nodes.deep_view(),
                    0 <= j < nodes.len(),
                    wv == nv[j as int].words,
                    prs.deep_view() == token_pairs(wv),
                    prs@.len() == wv.len(),
                    keep == (|w: Seq<char>| !(token_of(w) is Assign)),
                    var.deep_view() == wv.take(k as int).filter(keep),
                decreases prs.len() - k,
            {
                proof {
                    assert(prs.deep_view()[k as int] == (token_of(wv[k as int]), wv[k as int]));
                    assert(wv.take(k + 1) =~= wv.take(k as int).push(wv[k as int]));
                    crate::seq_facts::lemma_filter_push(wv.take(k as int), keep, wv[k as int]);
                }
                let pr = &prs[k];
                match &pr.0 {
                    Token::Assign => {
                        proof {
                            assert(token_of(wv[k as int]) is Assign);
                        }
                    },
                    _ => {
                        var.push(pr.1.clone());
                        proof {
                            assert(!(token_of(wv[k as int]) is Assign));
                            assert(var.deep_view() =~= wv.take(k + 1).filter(keep));
                        }
                    },
                }
                k = k + 1;
            }
            proof {
                assert(wv.take(prs.len() as int) =~= wv);
                assert(var.deep_view() == node_var_words(nv[j as int]));
                assert(var@.len() == var.deep_view().len());
            }
            if var.len() < 2 {
                proof {
                    assert(!node_var_ok(nv[j as int]));
                    assert(vars_of_branch(nv, j as int, vars.deep_view()) is Err);
                }
                return Err(
                    InterpreterError::new(
                        "interpreting variables",
                        "the declaration names no value beside its variable",
                    ),
                );
            }
            let ghost before = vars.deep_view();
            vars.push((var[0].clone(), var[1].clone()));
            proof {
                assert(node_var_ok(nv[j as int]));
                assert(vars.deep_view() =~= before.push(
                    (node_var_words(nv[j as int])[0], node_var_words(nv[j as int])[1]),
                ));
            }
            j = j + 1;
        }
        Ok(())
    }

    /// Reads one scripts section into `command_serializers`, in line order.
    fn scripts_parsing(
        &self,
        branch: &Branch,
        command_serializers: &mut Vec<CommandSerializer>,
    ) -> (r: Result<(), InterpreterError>)
        ensures
            match r {
                Ok(_) => scripts_of_branch(
                    branch@.nodes,
                    0,
                    self@.variables,
                    old(command_serializers).deep_view(),
                ) == Ok::<_, ()>(final(command_serializers).deep_view()),
                Err(_) => scripts_of_branch(
                    branch@.nodes,
                    0,
                    self@.variables,
                    old(command_serializers).deep_view(),
                ) is Err,
            },
    {
        let ghost nv = branch@.nodes;
        let ghost vars = self@.variables;
        let nodes = &branch.nodes;
        let mut j: usize = 0;
        while j < nodes.len()
            invariant
                0 <= j <= nodes.len(),
                nv == nodes.deep_view(),
                nv == branch@.nodes,
                vars == self@.variables,
                scripts_of_branch(nv, 0, vars, old(command_serializers).deep_view())
                    == scripts_of_branch(nv, j as int, vars, command_serializers.deep_view()),
            decreases nodes.len() - j,
        {
            let node = &nodes[j];
            let words = node.get_words();
            let ghost wv = nv[j as int].words;
            proof {
                assert(node@ == nv[j as int]);
                assert(words.deep_view() == wv);
                assert(words@.len() == words.deep_view().len());
            }
            if words.len() == 0 {
                proof {
                    assert(script_of_node(nv[j as int], vars) is Err);
                    assert(scripts_of_branch(
                        nv,
                        j as int,
                        vars,
                        command_serializers.deep_view(),
                    ) is Err);
                }
                return Err(
                    InterpreterError::new("interpreting the scripts section", "found an empty line"),
                );
            }
            let first_tk = Token::from(words[0].clone());
            let defered = match first_tk {
                Token::DeferAction => true,
                _ => false,
            };
            proof {
                assert(first_tk@ == token_of(wv[0]));
                assert(defered == (token_of(wv[0]) is DeferAction));
            }
            if defered && words.len() < 2 {
                proof {
                    assert(script_of_node_nonempty(nv[j as int], vars) is Err);
                    assert(script_of_node(nv[j as int], vars) is Err);
                    assert(scripts_of_branch(
                        nv,
                        j as int,
                        vars,
                        command_serializers.deep_view(),
                    ) is Err);
                }
                return Err(
                    InterpreterError::new(
                        "interpreting the scripts section",
                        "a deferred line names no command",
                    ),
                );
            }
            let command_name = if defered {
                words[1].clone()
            } else {
                words[0].clone()
            };
            let ghost namev = command_name@;
            proof {
                assert(namev == if defered {
                    wv[1]
                } else {
                    wv[0]
                });
            }
            let prs = node.pairs();
            let mut command_args: Vec<String> = Vec::new();
            let mut k: usize = 0;
            proof {
                assert(prs.deep_view() == token_pairs(wv));
                assert(prs.deep_view().len() == wv.len());
                assert(prs@.len() == prs.deep_view().len());
                assert(command_args.deep_view() =~= Seq::<Seq<char>>::empty());
            }
            while k < prs.len()
                invariant
                    0 <= k <= prs.len(),
                    nv == nodes.deep_view(),
                    0 <= j < nodes.len(),
                    wv == nv[j as int].words,
                    wv.len() >= 1,
                    prs.deep_view() == token_pairs(wv),
                    prs@.len() == wv.len(),
                    vars == self@.variables,
                    defered == (token_of(wv[0]) is DeferAction),
                    defered ==> wv.len() >= 2,
                    command_name@ == namev,
                    namev == (if defered {
                        wv[1]
                    } else {
                        wv[0]
                    }),
                    nv == branch@.nodes,
                    scripts_of_branch(nv, 0, vars, old(command_serializers).deep_view())
                        == scripts_of_branch(
                        nv,
                        j as int,
                        vars,
                        command_serializers.deep_view(),
                    ),
                    script_args(token_pairs(wv), 0, namev, vars, Seq::empty()) == script_args(
                        token_pairs(wv),
                        k as int,
                        namev,
                        vars,
                        command_args.deep_view(),
                    ),
                decreases prs.len() - k,
            {
                proof {
                    assert(prs.deep_view()[k as int] == (token_of(wv[k as int]), wv[k as int]));
                }
                let pr = &prs[k];
                match &pr.0 {
                    Token::Arg(s) => {
                        proof {
                            assert(pr.0@ == token_of(wv[k as int]));
                            assert(token_of(wv[k as int]) is Arg);
                            assert(s@ == wv[k as int]);
                            assert(s@.len() >= 1);
                        }
                        let key = s.as_str().substring_char(1, s.as_str().unicode_len()).to_owned();
                        proof {
                            assert(key@ =~= s@.drop_first());
                        }
                        match lookup_var(&self._variable_buf, key.as_str()) {
                            Some(v) => {
                                let ghost before = command_args.deep_view();
                                command_args.push(v);
                                proof {
                                    assert(command_args.deep_view() =~= before.push(
                                        var_lookup(vars, wv[k as int].drop_first())->0,
                                    ));
                                }
                            },
                            None => {
                                proof {
                                    assert(script_args(
                                        token_pairs(wv),
                                        k as int,
                                        namev,
                                        vars,
                                        command_args.deep_view(),
                                    ) is Err);
                                    assert(script_args(
                                        token_pairs(wv),
                                        0,
                                        namev,
                                        vars,
                                        Seq::empty(),
                                    ) is Err);
                                    assert(script_of_node_nonempty(nv[j as int], vars) is Err);
                                    assert(script_of_node(nv[j as int], vars) is Err);
                                    assert(scripts_of_branch(
                                        nv,
                                        j as int,
                                        vars,
                                        command_serializers.deep_view(),
                                    ) is Err);
                                }
                                return Err(
                                    InterpreterError::new(
                                        "interpreting the scripts section",
                                        "a line names a variable that no variables section declares",
                                    ),
                                );
                            },
                        }
                    },
                    Token::Skip => {
                        proof {
                            assert(token_of(wv[k as int]) is Skip);
                        }
                        if !str_eq(pr.1.as_str(), command_name.as_str()) {
                            let ghost before = command_args.deep_view();
                            command_args.push(pr.1.clone());
                            proof {
                                assert(pr.1@ == wv[k as int]);
                                assert(command_args.deep_view() =~= before.push(wv[k as int]));
                            }
                        }
                    },
                    _ => {},
                }
                k = k + 1;
            }
            let ghost before_cmds = command_serializers.deep_view();
            let new_command = CommandSerializer::new(command_name, command_args, defered);
            command_serializers.push(new_command);
            proof {
                assert(script_args(token_pairs(wv), 0, namev, vars, Seq::empty()) == Ok::<_, ()>(
                    new_command@.args,
                ));
                assert(script_of_node_nonempty(nv[j as int], vars) == Ok::<_, ()>(new_command@));
                assert(script_of_node(nv[j as int], vars) == Ok::<_, ()>(new_command@));
                assert(command_serializers.deep_view() =~= before_cmds.push(new_command@));
            }
            j = j + 1;
        }
        Ok(())
    }

    /// Reads one demo section into `command_serializers`, in line order.
    fn demos_parser(
        &self,
        branch: &Branch,
        command_serializers: &mut Vec<CommandSerializer>,
    ) -> (r: Result<(), InterpreterError>)
        ensures
            match r {
                Ok(_) => demos_of_branch(branch@.nodes, 0, old(command_serializers).deep_view())
                    == Ok::<_, ()>(final(command_serializers).deep_view()),
                Err(_) => demos_of_branch(
                    branch@.nodes,
                    0,
                    old(command_serializers).deep_view(),
                ) is Err,
            },
    {
        let ghost nv = branch@.nodes;
        let nodes = &branch.nodes;
        let mut j: usize = 0;
        while j < nodes.len()
            invariant
                0 <= j <= nodes.len(),
                nv == nodes.deep_view(),
                nv == branch@.nodes,
                demos_of_branch(nv, 0, old(command_serializers).deep_view()) == demos_of_branch(
                    nv,
                    j as int,
                    command_serializers.deep_view(),
                ),
            decreases nodes.len() - j,
        {
            let node = &nodes[j];
            let words = node.get_words();
            let ghost wv = nv[j as int].words;
            proof {
                assert(node@ == nv[j as int]);
                assert(words.deep_view() == wv);
                assert(words@.len() == words.deep_view().len());
            }
            let err = "interpreting the demo section";
            if words.len() == 0 || words.len() > 4 {
                proof {
                    assert(demo_of_node(nv[j as int]) is Err);
                    assert(demos_of_branch(nv, j as int, command_serializers.deep_view()) is Err);
                }
                return Err(
                    InterpreterError::new(err, "a line must hold between two and four words"),
                );
            }
            let first_tk = Token::from(words[0].clone());
            proof {
                assert(first_tk@ == token_of(wv[0]));
            }
            let defered: bool;
            let second_idx: usize;
            match first_tk {
                Token::DeferAction => {
                    if words.len() < 3 {
                        proof {
                            assert(demo_of_node(nv[j as int]) is Err);
                            assert(demos_of_branch(
                                nv,
                                j as int,
                                command_serializers.deep_view(),
                            ) is Err);
                        }
                        return Err(InterpreterError::new(err, "a deferred line names no source"));
                    }
                    defered = true;
                    second_idx = 2;
                },
                Token::Skip => {
                    if words.len() < 2 {
                        proof {
                            assert(demo_of_node(nv[j as int]) is Err);
                            assert(demos_of_branch(
                                nv,
                                j as int,
                                command_serializers.deep_view(),
                            ) is Err);
                        }
                        return Err(InterpreterError::new(err, "the line names no destination"));
                    }
                    defered = false;
                    second_idx = 1;
                },
                _ => {
                    proof {
                        assert(demo_of_node(nv[j as int]) is Err);
                        assert(demos_of_branch(
                            nv,
                            j as int,
                            command_serializers.deep_view(),
                        ) is Err);
                    }
                    return Err(
                        InterpreterError::new(
                            err,
                            "the only keywords this section knows are COPY_INTO and DEFER",
                        ),
                    );
                },
            }
            let second_tk = Token::from(words[second_idx].clone());
            proof {
                assert(second_tk@ == token_of(wv[second_idx as int]));
            }
            let is_copy = match second_tk {
                Token::CopyAction => true,
                _ => false,
            };
            if !is_copy {
                proof {
                    assert(demo_checked(
                        nv[j as int],
                        defered,
                        token_of(wv[second_idx as int]),
                    ) is Err);
                    assert(demo_of_node(nv[j as int]) is Err);
                    assert(demos_of_branch(nv, j as int, command_serializers.deep_view()) is Err);
                }
                return Err(
                    InterpreterError::new(err, "expected the copy keyword after the leading word"),
                );
            }
            let mut si: usize = 0;
            while si < words.len()
                invariant
                    0 <= si <= words.len(),
                    words.deep_view() == wv,
                    words@.len() == wv.len(),
                    nv == nodes.deep_view(),
                    0 <= j < nodes.len(),
                    nv[j as int].words == wv,
                    1 <= wv.len() <= 4,
                    defered ==> (token_of(wv[0]) is DeferAction) && second_idx == 2 && wv.len()
                        >= 3,
                    !defered ==> (token_of(wv[0]) is Skip) && second_idx == 1 && wv.len() >= 2,
                    token_of(wv[second_idx as int]) is CopyAction,
                    nv == branch@.nodes,
                    demos_of_branch(nv, 0, old(command_serializers).deep_view())
                        == demos_of_branch(nv, j as int, command_serializers.deep_view()),
                    forall|x: int| 0 <= x < si ==> !(#[trigger] wv[x]).contains('/'),
                decreases words.len() - si,
            {
                if contains_char(words[si].as_str(), '/') {
                    proof {
                        assert(wv[si as int].contains('/'));
                        assert(demo_checked(
                            nv[j as int],
                            defered,
                            token_of(wv[second_idx as int]),
                        ) is Err);
                        assert(demo_of_node(nv[j as int]) is Err);
                        assert(demos_of_branch(
                            nv,
                            j as int,
                            command_serializers.deep_view(),
                        ) is Err);
                    }
                    return Err(
                        InterpreterError::new(err, "use backslashes instead of forward slashes"),
                    );
                }
                si = si + 1;
            }
            let ghost keep = |w: Seq<char>|
                !(token_of(w) is CopyAction) && !(token_of(w) is DeferAction);
            let mut args: Vec<String> = Vec::new();
            let mut k: usize = 0;
            proof {
                assert(wv.take(0) =~= Seq::<Seq<char>>::empty());
                crate::seq_facts::lemma_filter_all_or_none(wv.take(0), keep);
                assert(args.deep_view() =~= Seq::<Seq<char>>::empty());
            }
            proof {
                assert(si == words@.len());
                assert forall|x: int| 0 <= x < wv.len() implies !(#[trigger] wv[x]).contains(
                    '/',
                ) by {
                    assert(0 <= x < si);
                }
            }
            while k < words.len()
                invariant
                    0 <= k <= words.len(),
                    words.deep_view() == wv,
                    words@.len() == wv.len(),
                    nv == nodes.deep_view(),
                    0 <= j < nodes.len(),
                    nv[j as int].words == wv,
                    1 <= wv.len() <= 4,
                    defered ==> (token_of(wv[0]) is DeferAction) && second_idx == 2 && wv.len()
                        >= 3,
                    !defered ==> (token_of(wv[0]) is Skip) && second_idx == 1 && wv.len() >= 2,
                    token_of(wv[second_idx as int]) is CopyAction,
                    forall|x: int| 0 <= x < wv.len() ==> !(#[trigger] wv[x]).contains('/'),
                    keep == (|w: Seq<char>|
                        !(token_of(w) is CopyAction) && !(token_of(w) is DeferAction)),
                    args.deep_view() == wv.take(k as int).filter(keep),
                decreases words.len() - k,
            {
                proof {
                    assert(wv.take(k + 1) =~= wv.take(k as int).push(wv[k as int]));
                    crate::seq_facts::lemma_filter_push(wv.take(k as int), keep, wv[k as int]);
                }
                let tk = Token::from(words[k].clone());
                proof {
                    assert(tk@ == token_of(wv[k as int]));
                }
                let skip_word = match tk {
                    Token::CopyAction => true,
                    Token::DeferAction => true,
                    _ => false,
                };
                if !skip_word {
                    args.push(words[k].clone());
                    proof {
                        assert(args.deep_view() =~= wv.take(k + 1).filter(keep));
                    }
                } else {
                    proof {
                        assert(!keep(wv[k as int]));
                    }
                }
                k = k + 1;
            }
            proof {
                assert(wv.take(words@.len() as int) =~= wv);
            }
            let ghost before_cmds = command_serializers.deep_view();
            let command = CommandSerializer::new("copy".to_owned(), args, defered);
            command_serializers.push(command);
            proof {
                assert forall|x: int| 0 <= x < nv[j as int].words.len() implies !(
                #[trigger] nv[j as int].words[x]).contains('/') by {
                    assert(nv[j as int].words[x] == wv[x]);
                    assert(!(wv[x]).contains('/'));
                }
                assert(args.deep_view() == demo_args(wv));
                assert(command@.command_name == "copy"@);
                assert(demo_checked(nv[j as int], defered, token_of(wv[second_idx as int]))
                    == Ok::<_, ()>(command@));
                assert(demo_of_node(nv[j as int]) == Ok::<_, ()>(command@));
                assert(command_serializers.deep_view() =~= before_cmds.push(command@));
            }
            j = j + 1;
        }
        Ok(())
    }

    /// Reads one directory-structure section into `fs_actions`, in line
    /// order.
    fn dir_structure_parser(
        &self,
        branch: &Branch,
        fs_actions: &mut Vec<ExacutableFsAction>,
    ) -> (r: Result<(), InterpreterError>)
        ensures
            match r {
                Ok(_) => dirs_of_branch(
                    branch@.nodes,
                    0,
                    self@.variables,
                    old(fs_actions).deep_view(),
                ) == Ok::<_, ()>(final(fs_actions).deep_view()),
                Err(_) => dirs_of_branch(
                    branch@.nodes,
                    0,
                    self@.variables,
                    old(fs_actions).deep_view(),
                ) is Err,
            },
    {
        let ghost nv = branch@.nodes;
        let ghost vars = self@.variables;
        let nodes = &branch.nodes;
        let mut j: usize = 0;
        while j < nodes.len()
            invariant
                0 <= j <= nodes.len(),
                nv == nodes.deep_view(),
                nv == branch@.nodes,
                vars == self@.variables,
                dirs_of_branch(nv, 0, vars, old(fs_actions).deep_view()) == dirs_of_branch(
                    nv,
                    j as int,
                    vars,
                    fs_actions.deep_view(),
                ),
            decreases nodes.len() - j,
        {
            let node = &nodes[j];
            let words = node.get_words();
            let ghost wv = nv[j as int].words;
            proof {
                assert(node@ == nv[j as int]);
                assert(words.deep_view() == wv);
                assert(words@.len() == words.deep_view().len());
            }
            let err = "interpreting the directories structure";
            if words.len() > 3 {
                proof {
                    assert(dir_of_node(nv[j as int], vars) is Err);
                    assert(dirs_of_branch(nv, j as int, vars, fs_actions.deep_view()) is Err);
                }
                return Err(InterpreterError::new(err, "a line must hold at most three words"));
            }
            if words.len() == 3 && !word_is_defer(&words[0]) {
                proof {
                    assert(!is_defer_word(wv[0]));
                    assert(dir_of_node(nv[j as int], vars) is Err);
                    assert(dirs_of_branch(nv, j as int, vars, fs_actions.deep_view()) is Err);
                }
                return Err(InterpreterError::new(err, "a three-word line must open with DEFER"));
            }
            let prs = node.pairs();
            let mut path: String = String::new();
            let mut is_file = false;
            let mut defered = false;
            let mut k: usize = 0;
            proof {
                assert(prs.deep_view() == token_pairs(wv));
                assert(prs.deep_view().len() == wv.len());
                assert(prs@.len() == prs.deep_view().len());
                assert(path@ =~= Seq::<char>::empty());
            }
            while k < prs.len()
                invariant
                    0 <= k <= prs.len(),
                    nv == nodes.deep_view(),
                    0 <= j < nodes.len(),
                    wv == nv[j as int].words,
                    wv.len() <= 3,
                    wv.len() == 3 ==> is_defer_word(wv[0]),
                    prs.deep_view() == token_pairs(wv),
                    prs@.len() == wv.len(),
                    vars == self@.variables,
                    nv == branch@.nodes,
                    dirs_of_branch(nv, 0, vars, old(fs_actions).deep_view()) == dirs_of_branch(
                        nv,
                        j as int,
                        vars,
                        fs_actions.deep_view(),
                    ),
                    dir_fold(token_pairs(wv), 0, vars, Seq::<char>::empty(), false, false)
                        == dir_fold(token_pairs(wv), k as int, vars, path@, is_file, defered),
                decreases prs.len() - k,
            {
                proof {
                    assert(prs.deep_view()[k as int] == (token_of(wv[k as int]), wv[k as int]));
                }
                let pr = &prs[k];
                match &pr.0 {
                    Token::DeclareFile => {
                        proof {
                            assert(token_of(wv[k as int]) is DeclareFile);
                        }
                        is_file = true;
                    },
                    Token::DeferAction => {
                        proof {
                            assert(token_of(wv[k as int]) is DeferAction);
                        }
                        defered = true;
                    },
                    Token::Arg(s) => {
                        proof {
                            assert(token_of(wv[k as int]) is Arg);
                            assert(s@ == wv[k as int]);
                            assert(s@.len() >= 1);
                        }
                        let key = s.as_str().substring_char(1, s.as_str().unicode_len()).to_owned();
                        proof {
                            assert(key@ =~= s@.drop_first());
                        }
                        match lookup_var(&self._variable_buf, key.as_str()) {
                            Some(v) => {
                                path = v;
                            },
                            None => {
                                proof {
                                    assert(dir_fold(
                                        token_pairs(wv),
                                        k as int,
                                        vars,
                                        path@,
                                        is_file,
                                        defered,
                                    ) is Err);
                                    assert(dir_fold(
                                        token_pairs(wv),
                                        0,
                                        vars,
                                        Seq::<char>::empty(),
                                        false,
                                        false,
                                    ) is Err);
                                    assert(dir_of_node(nv[j as int], vars) is Err);
                                    assert(dirs_of_branch(
                                        nv,
                                        j as int,
                                        vars,
                                        fs_actions.deep_view(),
                                    ) is Err);
                                }
                                return Err(
                                    InterpreterError::new(
                                        err,
                                        "a line names a variable that no variables section declares",
                                    ),
                                );
                            },
                        }
                    },
                    Token::Skip => {
                        proof {
                            assert(token_of(wv[k as int]) is Skip);
                        }
                        path = pr.1.clone();
                        proof {
                            assert(path@ == wv[k as int]);
                        }
                    },
                    _ => {},
                }
                k = k + 1;
            }
            proof {
                assert(dir_fold(token_pairs(wv), prs@.len() as int, vars, path@, is_file, defered)
                    == Ok::<_, ()>(FsActionView { path: path@, is_file, defered }));
            }
            let ghost before_fs = fs_actions.deep_view();
            let fs_action = ExacutableFsAction(path, is_file, defered);
            fs_actions.push(fs_action);
            proof {
                assert(dir_fold(token_pairs(wv), 0, vars, Seq::<char>::empty(), false, false)
                    == Ok::<_, ()>(fs_action@));
                assert(dir_of_node(nv[j as int], vars) == Ok::<_, ()>(fs_action@));
                assert(fs_actions.deep_view() =~= before_fs.push(fs_action@));
            }
            j = j + 1;
        }
        Ok(())
    }

    /// Interprets the whole tree: reads every variables section first, then
    /// turns every other section's lines into commands and file-system
    /// actions, appended to this interpreter's buffers in branch order; the
    /// variable buffer is cleared at the end. On an uninterpretable line the
    /// walk stops and the error says during which step.
    pub fn interpret(&mut self) -> (r: Result<(), InterpreterError>)
        requires
            old(self)@.variables.len() == 0,
        ensures
            final(self)@.tree == old(self)@.tree,
            match r {
                Ok(_) => {
                    &&& interpret_spec(old(self)@.tree) is Ok
                    &&& final(self)@.commands == old(self)@.commands + interpret_spec(
                        old(self)@.tree,
                    )->Ok_0.0
                    &&& final(self)@.fs_actions == old(self)@.fs_actions + interpret_spec(
                        old(self)@.tree,
                    )->Ok_0.1
                    &&& final(self)@.variables.len() == 0
                },
                Err(_) => interpret_spec(old(self)@.tree) is Err,
            },
    {
        let ghost bv = self.syntax_tree@.branches;
        let n = self.syntax_tree.branches.len();
        proof {
            assert(old(self)@.variables =~= Seq::<(Seq<char>, Seq<char>)>::empty());
        }
        let mut bi: usize = 0;
        while bi < n
            invariant
                0 <= bi <= n,
                n == bv.len(),
                bv == self.syntax_tree@.branches,
                self.syntax_tree == old(self).syntax_tree,
                self._commands_buf == old(self)._commands_buf,
                self._fs_actions_buf == old(self)._fs_actions_buf,
                vars_from(bv, 0, Seq::empty()) == vars_from(
                    bv,
                    bi as int,
                    self._variable_buf.deep_view(),
                ),
            decreases n - bi,
        {
            let kind = self.syntax_tree.branches[bi].section_kind;
            proof {
                assert(self.syntax_tree.branches[bi as int]@ == bv[bi as int]);
                assert(kind == bv[bi as int].section_kind);
            }
            if kind == SectionIdentity::Variables {
                match Interpreter::variable_parsing(
                    &mut self._variable_buf,
                    &self.syntax_tree.branches[bi],
                ) {
                    Ok(_) => {},
                    Err(e) => {
                        proof {
                            assert(vars_from(bv, 0, Seq::empty()) is Err);
                            assert(interpret_spec(old(self)@.tree) is Err);
                        }
                        return Err(e);
                    },
                }
            }
            bi = bi + 1;
        }
        let ghost vars = self._variable_buf.deep_view();
        proof {
            assert(vars_from(bv, 0, Seq::empty()) == Ok::<_, ()>(vars));
        }
        let mut bi: usize = 0;
        while bi < n
            invariant
                0 <= bi <= n,
                n == bv.len(),
                bv == self.syntax_tree@.branches,
                self.syntax_tree == old(self).syntax_tree,
                vars == self._variable_buf.deep_view(),
                vars_from(bv, 0, Seq::empty()) == Ok::<_, ()>(vars),
                actions_from(
                    bv,
                    0,
                    vars,
                    old(self)._commands_buf.deep_view(),
                    old(self)._fs_actions_buf.deep_view(),
                ) == actions_from(
                    bv,
                    bi as int,
                    vars,
                    self._commands_buf.deep_view(),
                    self._fs_actions_buf.deep_view(),
                ),
            decreases n - bi,
        {
            let kind = self.syntax_tree.branches[bi].section_kind;
            proof {
                assert(self.syntax_tree.branches[bi as int]@ == bv[bi as int]);
                assert(kind == bv[bi as int].section_kind);
            }
            let mut command_serializers: Vec<CommandSerializer> = Vec::new();
            let mut fs_actions: Vec<ExacutableFsAction> = Vec::new();
            proof {
                assert(command_serializers.deep_view() =~= Seq::<CommandSerializerView>::empty());
                assert(fs_actions.deep_view() =~= Seq::<FsActionView>::empty());
            }
            let ghost cs_before = self._commands_buf.deep_view();
            let ghost fs_before = self._fs_actions_buf.deep_view();
            if kind == SectionIdentity::CurrentWorkingDirectory {
                match self.dir_structure_parser(&self.syntax_tree.branches[bi], &mut fs_actions) {
                    Ok(_) => {},
                    Err(e) => {
                        proof {
                            lemma_dirs_shift(
                                bv[bi as int].nodes,
                                0,
                                vars,
                                Seq::empty(),
                                fs_before,
                            );
                            assert(fs_before + Seq::<FsActionView>::empty() =~= fs_before);
                            assert(dirs_of_branch(bv[bi as int].nodes, 0, vars, fs_before) is Err);
                            assert(actions_from(bv, bi as int, vars, cs_before, fs_before) is Err);
                            assert(actions_from(
                                bv,
                                0,
                                vars,
                                old(self)._commands_buf.deep_view(),
                                old(self)._fs_actions_buf.deep_view(),
                            ) is Err);
                            lemma_actions_shift(
                                bv,
                                0,
                                vars,
                                Seq::empty(),
                                Seq::empty(),
                                old(self)._commands_buf.deep_view(),
                                old(self)._fs_actions_buf.deep_view(),
                            );
                            assert(old(self)._commands_buf.deep_view() + Seq::<
                                CommandSerializerView,
                            >::empty() =~= old(self)._commands_buf.deep_view());
                            assert(old(self)._fs_actions_buf.deep_view() + Seq::<
                                FsActionView,
                            >::empty() =~= old(self)._fs_actions_buf.deep_view());
                            assert(actions_from(bv, 0, vars, Seq::empty(), Seq::empty()) is Err);
                            assert(interpret_spec(old(self)@.tree) is Err);
                        }
                        return Err(e);
                    },
                }
                proof {
                    lemma_dirs_acc(bv[bi as int].nodes, vars, fs_actions.deep_view(), fs_before);
                }
            } else if kind == SectionIdentity::Demostration {
                match self.demos_parser(&self.syntax_tree.branches[bi], &mut command_serializers) {
                    Ok(_) => {},
                    Err(e) => {
                        proof {
                            lemma_demos_shift(bv[bi as int].nodes, 0, Seq::empty(), cs_before);
                            assert(cs_before + Seq::<CommandSerializerView>::empty() =~= cs_before);
                            assert(demos_of_branch(bv[bi as int].nodes, 0, cs_before) is Err);
                            assert(actions_from(bv, bi as int, vars, cs_before, fs_before) is Err);
                            assert(actions_from(
                                bv,
                                0,
                                vars,
                                old(self)._commands_buf.deep_view(),
                                old(self)._fs_actions_buf.deep_view(),
                            ) is Err);
                            lemma_actions_shift(
                                bv,
                                0,
                                vars,
                                Seq::empty(),
                                Seq::empty(),
                                old(self)._commands_buf.deep_view(),
                                old(self)._fs_actions_buf.deep_view(),
                            );
                            assert(old(self)._commands_buf.deep_view() + Seq::<
                                CommandSerializerView,
                            >::empty() =~= old(self)._commands_buf.deep_view());
                            assert(old(self)._fs_actions_buf.deep_view() + Seq::<
                                FsActionView,
                            >::empty() =~= old(self)._fs_actions_buf.deep_view());
                            assert(actions_from(bv, 0, vars, Seq::empty(), Seq::empty()) is Err);
                            assert(interpret_spec(old(self)@.tree) is Err);
                        }
                        return Err(e);
                    },
                }
                proof {
                    lemma_demos_acc(bv[bi as int].nodes, command_serializers.deep_view(), cs_before);
                }
            } else if kind == SectionIdentity::Scripts {
                match self.scripts_parsing(&self.syntax_tree.branches[bi], &mut command_serializers)
                {
                    Ok(_) => {},
                    Err(e) => {
                        proof {
                            lemma_scripts_shift(
                                bv[bi as int].nodes,
                                0,
                                vars,
                                Seq::empty(),
                                cs_before,
                            );
                            assert(cs_before + Seq::<CommandSerializerView>::empty() =~= cs_before);
                            assert(scripts_of_branch(
                                bv[bi as int].nodes,
                                0,
                                vars,
                                cs_before,
                            ) is Err);
                            assert(actions_from(bv, bi as int, vars, cs_before, fs_before) is Err);
                            assert(actions_from(
                                bv,
                                0,
                                vars,
                                old(self)._commands_buf.deep_view(),
                                old(self)._fs_actions_buf.deep_view(),
                            ) is Err);
                            lemma_actions_shift(
                                bv,
                                0,
                                vars,
                                Seq::empty(),
                                Seq::empty(),
                                old(self)._commands_buf.deep_view(),
                                old(self)._fs_actions_buf.deep_view(),
                            );
                            assert(old(self)._commands_buf.deep_view() + Seq::<
                                CommandSerializerView,
                            >::empty() =~= old(self)._commands_buf.deep_view());
                            assert(old(self)._fs_actions_buf.deep_view() + Seq::<
                                FsActionView,
                            >::empty() =~= old(self)._fs_actions_buf.deep_view());
                            assert(actions_from(bv, 0, vars, Seq::empty(), Seq::empty()) is Err);
                            assert(interpret_spec(old(self)@.tree) is Err);
                        }
                        return Err(e);
                    },
                }
                proof {
                    lemma_scripts_acc(
                        bv[bi as int].nodes,
                        vars,
                        command_serializers.deep_view(),
                        cs_before,
                    );
                }
            }
            let ghost got_cs = command_serializers.deep_view();
            let ghost got_fs = fs_actions.deep_view();
            self._commands_buf.append(&mut command_serializers);
            self._fs_actions_buf.append(&mut fs_actions);
            proof {
                assert(self._commands_buf.deep_view() =~= cs_before + got_cs);
                assert(self._fs_actions_buf.deep_view() =~= fs_before + got_fs);
                if kind == SectionIdentity::CurrentWorkingDirectory {
                    assert(got_cs =~= Seq::<CommandSerializerView>::empty());
                    assert(cs_before + got_cs =~= cs_before);
                } else if kind == SectionIdentity::Demostration || kind == SectionIdentity::Scripts {
                    assert(got_fs =~= Seq::<FsActionView>::empty());
                    assert(fs_before + got_fs =~= fs_before);
                } else {
                    assert(cs_before + got_cs =~= cs_before);
                    assert(fs_before + got_fs =~= fs_before);
                }
            }
            bi = bi + 1;
        }
        proof {
            let cs_old = old(self)._commands_buf.deep_view();
            let fs_old = old(self)._fs_actions_buf.deep_view();
            assert(actions_from(
                bv,
                n as int,
                vars,
                self._commands_buf.deep_view(),
                self._fs_actions_buf.deep_view(),
            ) == Ok::<_, ()>((self._commands_buf.deep_view(), self._fs_actions_buf.deep_view())));
            lemma_actions_shift(bv, 0, vars, Seq::empty(), Seq::empty(), cs_old, fs_old);
            assert(cs_old + Seq::<CommandSerializerView>::empty() =~= cs_old);
            assert(fs_old + Seq::<FsActionView>::empty() =~= fs_old);
            assert(actions_from(bv, 0, vars, Seq::empty(), Seq::empty()) is Ok);
            assert(interpret_spec(old(self)@.tree) is Ok);
        }
        self._variable_buf.clear();
        proof {
            assert(self._variable_buf.deep_view() =~= Seq::<(Seq<char>, Seq<char>)>::empty());
        }
        Ok(())
    }
}

/// Reading a section into an empty buffer and appending equals reading it
/// into the buffer directly.
proof fn lemma_dirs_acc(
    nodes: Seq<NodeView>,
    vars: Seq<(Seq<char>, Seq<char>)>,
    got: Seq<FsActionView>,
    base: Seq<FsActionView>,
)
    requires
        dirs_of_branch(nodes, 0, vars, Seq::empty()) == Ok::<_, ()>(got),
    ensures
        dirs_of_branch(nodes, 0, vars, base) == Ok::<_, ()>(base + got),
{
    lemma_dirs_shift(nodes, 0, vars, Seq::empty(), base);
    assert(base + Seq::<FsActionView>::empty() =~= base);
}

/// Shifting the accumulator of a directory-section read shifts its result.
proof fn lemma_dirs_shift(
    nodes: Seq<NodeView>,
    j: int,
    vars: Seq<(Seq<char>, Seq<char>)>,
    acc: Seq<FsActionView>,
    base: Seq<FsActionView>,
)
    requires
        0 <= j <= nodes.len(),
    ensures
        match dirs_of_branch(nodes, j, vars, acc) {
            Ok(out) => dirs_of_branch(nodes, j, vars, base + acc) == Ok::<_, ()>(
                base + out,
            ),
            Err(e) => dirs_of_branch(nodes, j, vars, base + acc) is Err,
        },
    decreases nodes.len() - j,
{
    if j < nodes.len() {
        match dir_of_node(nodes[j], vars) {
            Ok(a) => {
                assert((base + acc).push(a) =~= base + acc.push(a));
                lemma_dirs_shift(nodes, j + 1, vars, acc.push(a), base);
            },
            Err(_) => {},
        }
    }
}

/// Shifting the accumulator of a demo-section read shifts its result.
proof fn lemma_demos_shift(
    nodes: Seq<NodeView>,
    j: int,
    acc: Seq<CommandSerializerView>,
    base: Seq<CommandSerializerView>,
)
    requires
        0 <= j <= nodes.len(),
    ensures
        match demos_of_branch(nodes, j, acc) {
            Ok(out) => demos_of_branch(nodes, j, base + acc) == Ok::<_, ()>(base + out),
            Err(e) => demos_of_branch(nodes, j, base + acc) is Err,
        },
    decreases nodes.len() - j,
{
    if j < nodes.len() {
        match demo_of_node(nodes[j]) {
            Ok(c) => {
                assert((base + acc).push(c) =~= base + acc.push(c));
                lemma_demos_shift(nodes, j + 1, acc.push(c), base);
            },
            Err(_) => {},
        }
    }
}

proof fn lemma_demos_acc(
    nodes: Seq<NodeView>,
    got: Seq<CommandSerializerView>,
    base: Seq<CommandSerializerView>,
)
    requires
        demos_of_branch(nodes, 0, Seq::empty()) == Ok::<_, ()>(got),
    ensures
        demos_of_branch(nodes, 0, base) == Ok::<_, ()>(base + got),
{
    lemma_demos_shift(nodes, 0, Seq::empty(), base);
    assert(base + Seq::<CommandSerializerView>::empty() =~= base);
}

/// Shifting the accumulator of a scripts-section read shifts its result.
proof fn lemma_scripts_shift(
    nodes: Seq<NodeView>,
    j: int,
    vars: Seq<(Seq<char>, Seq<char>)>,
    acc: Seq<CommandSerializerView>,
    base: Seq<CommandSerializerView>,
)
    requires
        0 <= j <= nodes.len(),
    ensures
        match scripts_of_branch(nodes, j, vars, acc) {
            Ok(out) => scripts_of_branch(nodes, j, vars, base + acc) == Ok::<_, ()>(base + out),
            Err(e) => scripts_of_branch(nodes, j, vars, base + acc) is Err,
        },
    decreases nodes.len() - j,
{
    if j < nodes.len() {
        match script_of_node(nodes[j], vars) {
            Ok(c) => {
                assert((base + acc).push(c) =~= base + acc.push(c));
                lemma_scripts_shift(nodes, j + 1, vars, acc.push(c), base);
            },
            Err(_) => {},
        }
    }
}

proof fn lemma_scripts_acc(
    nodes: Seq<NodeView>,
    vars: Seq<(Seq<char>, Seq<char>)>,
    got: Seq<CommandSerializerView>,
    base: Seq<CommandSerializerView>,
)
    requires
        scripts_of_branch(nodes, 0, vars, Seq::empty()) == Ok::<_, ()>(got),
    ensures
        scripts_of_branch(nodes, 0, vars, base) == Ok::<_, ()>(base + got),
{
    lemma_scripts_shift(nodes, 0, vars, Seq::empty(), base);
    assert(base + Seq::<CommandSerializerView>::empty() =~= base);
}

/// Shifting both accumulators of the section walk shifts its result.
proof fn lemma_actions_shift(
    branches: Seq<BranchView>,
    i: int,
    vars: Seq<(Seq<char>, Seq<char>)>,
    cs_acc: Seq<CommandSerializerView>,
    fs_acc: Seq<FsActionView>,
    cs_base: Seq<CommandSerializerView>,
    fs_base: Seq<FsActionView>,
)
    requires
        0 <= i <= branches.len(),
    ensures
        match actions_from(branches, i, vars, cs_acc, fs_acc) {
            Ok(out) => actions_from(branches, i, vars, cs_base + cs_acc, fs_base + fs_acc)
                == Ok::<_, ()>((cs_base + out.0, fs_base + out.1)),
            Err(_) => actions_from(branches, i, vars, cs_base + cs_acc, fs_base + fs_acc) is Err,
        },
    decreases branches.len() - i,
{
    if i < branches.len() {
        let b = branches[i];
        match b.section_kind {
            SectionIdentity::CurrentWorkingDirectory => {
                lemma_dirs_shift(b.nodes, 0, vars, fs_acc, fs_base);
                match dirs_of_branch(b.nodes, 0, vars, fs_acc) {
                    Ok(fs2) => {
                        lemma_actions_shift(branches, i + 1, vars, cs_acc, fs2, cs_base, fs_base);
                    },
                    Err(_) => {},
                }
            },
            SectionIdentity::Demostration => {
                lemma_demos_shift(b.nodes, 0, cs_acc, cs_base);
                match demos_of_branch(b.nodes, 0, cs_acc) {
                    Ok(cs2) => {
                        lemma_actions_shift(branches, i + 1, vars, cs2, fs_acc, cs_base, fs_base);
                    },
                    Err(_) => {},
                }
            },
            SectionIdentity::Scripts => {
                lemma_scripts_shift(b.nodes, 0, vars, cs_acc, cs_base);
                match scripts_of_branch(b.nodes, 0, vars, cs_acc) {
                    Ok(cs2) => {
                        lemma_actions_shift(branches, i + 1, vars, cs2, fs_acc, cs_base, fs_base);
                    },
                    Err(_) => {},
                }
            },
            _ => {
                lemma_actions_shift(branches, i + 1, vars, cs_acc, fs_acc, cs_base, fs_base);
            },
        }
    }
}

/// True exactly when the word is `DEFER` in any casing.
fn word_is_defer(w: &String) -> (r: bool)
    ensures
        r == is_defer_word(w@),
{
    let s = w.as_str();
    if s.unicode_len() != 5 {
        return false;
    }
    let c0 = s.get_char(0);
    let c1 = s.get_char(1);
    let c2 = s.get_char(2);
    let c3 = s.get_char(3);
    let c4 = s.get_char(4);
    (c0 == 'D' || c0 == 'd') && (c1 == 'E' || c1 == 'e') && (c2 == 'F' || c2 == 'f') && (c3 == 'E'
        || c3 == 'e') && (c4 == 'R' || c4 == 'r')
}


/// The tasks a run executes: one per file-system action, then one per
/// command, each serialized behind its command name, with ids assigned in
/// production order across both.
pub open spec fn tasks_of(fs: Seq<FsActionView>, cmds: Seq<CommandSerializerView>) -> Seq<
    TaskView,
> {
    Seq::new(
        fs.len() + cmds.len(),
        |i: int|
            if i < fs.len() {
                TaskView {
                    id: i as nat,
                    defered: fs[i].defered,
                    action: ActionView::MakePath { path: fs[i].path, is_file: fs[i].is_file },
                }
            } else {
                TaskView {
                    id: i as nat,
                    defered: cmds[i - fs.len()].defered,
                    action: ActionView::RunCommand {
                        args: seq![cmds[i - fs.len()].command_name] + cmds[i - fs.len()].args,
                    },
                }
            },
    )
}

impl Interpreter {
    /// Wraps every collected action in a task — file-system actions first,
    /// then commands, ids in production order — schedules them, and hands
    /// back an executor over the scheduled order, still in its immediate
    /// phase. The caller normalizes the batch size to at least one first.
    pub fn create_tasks_executor(&mut self, batch_size: &usize) -> (r: Option<TasksExecutor>)
        requires
            *batch_size >= 1,
            old(self)@.fs_actions.len() + old(self)@.commands.len() <= usize::MAX,
        ensures
            *final(self) == *old(self),
            r is Some,
            (r->0).ordered() == scheduled_order(
                tasks_of(old(self)@.fs_actions, old(self)@.commands),
            ),
            (r->0).batch_size_spec() == *batch_size as int,
            !(r->0).in_deferred_phase(),
            (r->0).cursor_spec() == 0,
    {
        let ghost fsv = self@.fs_actions;
        let ghost csv = self@.commands;
        let ghost all = tasks_of(fsv, csv);
        let mut tasks: Vec<Task> = Vec::new();
        let nfs = self._fs_actions_buf.len();
        let ncmd = self._commands_buf.len();
        let mut i: usize = 0;
        proof {
            assert(tasks.deep_view() =~= all.take(0));
        }
        while i < nfs
            invariant
                0 <= i <= nfs,
                *self == *old(self),
                fsv == self@.fs_actions,
                csv == self@.commands,
                all == tasks_of(fsv, csv),
                nfs == fsv.len(),
                ncmd == csv.len(),
                nfs + ncmd <= usize::MAX,
                tasks.deep_view() == all.take(i as int),
            decreases nfs - i,
        {
            proof {
                assert(tasks.deep_view().len() == i);
                assert(tasks@.len() == i);
            }
            let a = &self._fs_actions_buf[i];
            let action = Action::MakePath { path: a.0.clone(), is_file: a.1 };
            let task = Task::new(action, a.2, i);
            tasks.push(task);
            proof {
                assert(a@ == fsv[i as int]);
                assert(task@ == all[i as int]);
                assert forall|x: int| 0 <= x < i + 1 implies tasks.deep_view()[x] == all.take(
                    i + 1,
                )[x] by {
                    if x < i {
                        assert(tasks.deep_view()[x] == all.take(i as int)[x]);
                    } else {
                        assert(tasks.deep_view()[x] == task@);
                    }
                }
                assert(tasks.deep_view() =~= all.take(i + 1));
            }
            i = i + 1;
        }
        let mut jx: usize = 0;
        while jx < ncmd
            invariant
                0 <= jx <= ncmd,
                *self == *old(self),
                fsv == self@.fs_actions,
                csv == self@.commands,
                all == tasks_of(fsv, csv),
                nfs == fsv.len(),
                ncmd == csv.len(),
                nfs + ncmd <= usize::MAX,
                tasks.deep_view() == all.take(nfs + jx),
            decreases ncmd - jx,
        {
            proof {
                assert(tasks.deep_view().len() == nfs + jx);
                assert(tasks@.len() == nfs + jx);
            }
            let mut c = self._commands_buf[jx].clone();
            proof {
                assert(c@ == csv[jx as int]);
            }
            let tcmd = c._serialize_to_cmd();
            let defered = tcmd.1;
            let action = Action::RunCommand { args: tcmd.0 };
            let task = Task::new(action, defered, nfs + jx);
            tasks.push(task);
            proof {
                assert(task@ == all[nfs + jx]);
                assert forall|x: int| 0 <= x < nfs + jx + 1 implies tasks.deep_view()[x]
                    == all.take(nfs + jx + 1)[x] by {
                    if x < nfs + jx {
                        assert(tasks.deep_view()[x] == all.take(nfs + jx)[x]);
                    } else {
                        assert(tasks.deep_view()[x] == task@);
                    }
                }
                assert(tasks.deep_view() =~= all.take(nfs + jx + 1));
            }
            jx = jx + 1;
        }
        proof {
            assert(all.take(nfs + ncmd) =~= all);
        }
        let schedular = TaskSchedular::new(tasks);
        let executor = TasksExecutor::new(schedular, *batch_size);
        Some(executor)
    }
}

} // verus!
