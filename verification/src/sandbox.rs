//! The sandbox's rules: which file a relative path may name inside the
//! workspace, and which commands may run.
//!
//! Paths are handled as lists of components, as `Path::components` gives
//! them on Unix: a leading `/` is the root component `/`, a leading `.` is the
//! current-directory component `.`, and the other components are the
//! non-empty pieces between separators other than `.`. A path is inside
//! another when its components start with the other's. The file system's
//! answers (whether a path exists, its canonical form) come from the caller.
use vstd::prelude::*;
use crate::text::strings_view;
use vstd::string::StringExecFns;
use crate::markdown::{lemma_split_on_len, split_chars, split_on};
use crate::strutil::{ws_pred, str_eq};
use crate::cursor::{char_is_whitespace, is_white_space, lemma_run_end_bounds, run_end};
use crate::text::{collect_chars, string_from_chars};
use crate::strutil::slice_chars;

verus! {

/// The sandbox: its workspace root, the canonical form of that root, and the
/// commands that may run.
pub struct Sandbox {
    pub workspace_root: String,
    pub canonical_root: String,
    pub allowed_commands: Vec<String>,
}

/// Why the sandbox refused or failed an operation.
pub enum SandboxError {
    /// The path (as given) leads out of the workspace.
    Escapes(String),
    /// The path (as given) names nothing that has a parent.
    Invalid(String),
    /// The file system reported this error.
    Io(String),
    /// This base command is not allowed.
    CommandNotAllowed(String),
    /// The command failed with this error output.
    CommandFailed(String),
}

/// What the file system says of a target path.
pub enum PathProbe {
    /// The path exists; its canonical form, or the error of computing it.
    Exists(Result<String, String>),
    /// The path does not exist but its parent does; the parent's canonical
    /// form, or the error of computing it.
    ParentExists(Result<String, String>),
    /// Neither the path nor its parent exists (or it has no parent).
    Missing,
}

// ---------- specifications ----------

pub open spec fn dot() -> Seq<char> {
    seq!['.']
}

pub open spec fn dot_dot() -> Seq<char> {
    seq!['.', '.']
}

pub open spec fn root_comp() -> Seq<char> {
    seq!['/']
}

/// The pieces that name something: not empty and not `.`.
pub open spec fn named_pieces(pieces: Seq<Seq<char>>) -> Seq<Seq<char>>
    decreases pieces.len(),
{
    if pieces.len() == 0 {
        Seq::empty()
    } else {
        let acc = named_pieces(pieces.drop_last());
        let p = pieces.last();
        if p.len() == 0 || p == dot() {
            acc
        } else {
            acc.push(p)
        }
    }
}

/// The components of the path `s`.
pub open spec fn path_components(s: Seq<char>) -> Seq<Seq<char>> {
    let pieces = split_on(s, '/');
    if s.len() > 0 && s[0] == '/' {
        seq![root_comp()] + named_pieces(pieces)
    } else if pieces[0] == dot() {
        seq![dot()] + named_pieces(pieces.drop_first())
    } else {
        named_pieces(pieces)
    }
}

/// The normal components that remain of a relative path: empty and `.`
/// pieces (the root and current-directory components among them) are
/// skipped, `..` drops the last remaining component, any other piece is kept.
pub open spec fn clean_pieces(pieces: Seq<Seq<char>>) -> Seq<Seq<char>>
    decreases pieces.len(),
{
    if pieces.len() == 0 {
        Seq::empty()
    } else {
        let acc = clean_pieces(pieces.drop_last());
        let p = pieces.last();
        if p == dot_dot() {
            if acc.len() > 0 {
                acc.drop_last()
            } else {
                acc
            }
        } else if p.len() == 0 || p == dot() {
            acc
        } else {
            acc.push(p)
        }
    }
}

pub open spec fn cleaned(rel: Seq<char>) -> Seq<Seq<char>> {
    clean_pieces(split_on(rel, '/'))
}

/// A component that names an entry: not empty, not `.` or `..`, no separator.
pub open spec fn is_normal(c: Seq<char>) -> bool {
    c.len() > 0 && c != dot() && c != dot_dot() && !c.contains('/')
}

/// `a`'s components are the first components of `b`.
pub open spec fn within(b: Seq<Seq<char>>, a: Seq<Seq<char>>) -> bool {
    a.len() <= b.len() && b.take(a.len() as int) == a
}

/// The parent of a path: `None` for an empty path or one that ends at the
/// root, else all components but the last.
pub open spec fn parent_of(p: Seq<Seq<char>>) -> Option<Seq<Seq<char>>> {
    if p.len() == 0 || p.last() == root_comp() {
        None
    } else {
        Some(p.drop_last())
    }
}

/// The last component where it is a normal one.
pub open spec fn file_name_of(p: Seq<Seq<char>>) -> Option<Seq<char>> {
    if p.len() > 0 && p.last() != root_comp() && p.last() != dot() && p.last() != dot_dot() {
        Some(p.last())
    } else {
        None
    }
}

pub open spec fn comps_view(v: Seq<Vec<char>>) -> Seq<Seq<char>> {
    v.map_values(|c: Vec<char>| c@)
}

pub ghost enum PathDecision {
    Accept(Seq<Seq<char>>),
    Escapes,
    Invalid,
    Io(Seq<char>),
}

impl Sandbox {
    pub open spec fn root_comps(&self) -> Seq<Seq<char>> {
        path_components(self.workspace_root@)
    }

    pub open spec fn canonical_comps(&self) -> Seq<Seq<char>> {
        path_components(self.canonical_root@)
    }

    /// The path that `rel` names: the workspace root followed by the
    /// normal components that remain of `rel`.
    pub open spec fn target_spec(&self, rel: Seq<char>) -> Seq<Seq<char>> {
        self.root_comps() + cleaned(rel)
    }

    /// The decision on `rel` given what the file system says of its target.
    /// An existing target is judged by its canonical form; a new file in an
    /// existing directory by the directory's canonical form and the file's
    /// name; either must lie in the canonical root. A target whose parent is
    /// missing too is accepted when it lies in the workspace root, and one
    /// with no parent is invalid.
    pub open spec fn decide_spec(&self, rel: Seq<char>, probe: PathProbe) -> PathDecision {
        let full = self.target_spec(rel);
        let resolved: Option<Seq<Seq<char>>> = match probe {
            PathProbe::Exists(Ok(c)) => Some(path_components(c@)),
            PathProbe::ParentExists(Ok(c)) => Some(
                match file_name_of(full) {
                    Some(n) => path_components(c@).push(n),
                    None => path_components(c@),
                },
            ),
            _ => None,
        };
        match probe {
            PathProbe::Exists(Err(e)) => PathDecision::Io(e@),
            PathProbe::ParentExists(Err(e)) => PathDecision::Io(e@),
            PathProbe::Missing => {
                if parent_of(full) is None {
                    PathDecision::Invalid
                } else if !within(full, self.root_comps()) {
                    PathDecision::Escapes
                } else {
                    PathDecision::Accept(full)
                }
            },
            _ => {
                if within(resolved.unwrap(), self.canonical_comps()) {
                    PathDecision::Accept(full)
                } else {
                    PathDecision::Escapes
                }
            },
        }
    }
}

pub open spec fn decision_matches(r: Result<Vec<String>, SandboxError>, d: PathDecision, rel: Seq<char>) -> bool {
    match d {
        PathDecision::Accept(p) => r matches Ok(v) && strings_view(v@) == p,
        PathDecision::Escapes => r matches Err(SandboxError::Escapes(s)) && s@ == rel,
        PathDecision::Invalid => r matches Err(SandboxError::Invalid(s)) && s@ == rel,
        PathDecision::Io(e) => r matches Err(SandboxError::Io(s)) && s@ == e,
    }
}

pub open spec fn non_ws_pred() -> spec_fn(char) -> bool {
    |c: char| !is_white_space(c)
}

/// The first white-space separated word of `s`, if any.
pub open spec fn first_word(s: Seq<char>) -> Option<Seq<char>> {
    let a = run_end(s, 0, ws_pred());
    if a >= s.len() {
        None
    } else {
        Some(s.subrange(a, run_end(s, a, non_ws_pred())))
    }
}

/// The program that a command line runs: its first word, or the whole line
/// where it has none.
pub open spec fn base_command(cmd: Seq<char>) -> Seq<char> {
    match first_word(cmd) {
        Some(w) => w,
        None => cmd,
    }
}

impl SandboxError {
    /// The error's text.
    pub open spec fn message_spec(&self) -> Seq<char> {
        match self {
            SandboxError::Escapes(p) => "Path escapes workspace: "@ + p@,
            SandboxError::Invalid(p) => "Invalid path: "@ + p@,
            SandboxError::Io(e) => e@,
            SandboxError::CommandNotAllowed(c) => "Command not allowed: "@ + c@,
            SandboxError::CommandFailed(e) => "Command failed: "@ + e@,
        }
    }

    pub fn message(&self) -> (r: String)
        ensures
            r@ == self.message_spec(),
    {
        match self {
            SandboxError::Escapes(p) => concat("Path escapes workspace: ", p.as_str()),
            SandboxError::Invalid(p) => concat("Invalid path: ", p.as_str()),
            SandboxError::Io(e) => e.clone(),
            SandboxError::CommandNotAllowed(c) => concat("Command not allowed: ", c.as_str()),
            SandboxError::CommandFailed(e) => concat("Command failed: ", e.as_str()),
        }
    }
}

fn concat(a: &str, b: &str) -> (r: String)
    ensures
        r@ == a@ + b@,
{
    let mut s = a.to_owned();
    s.append(b);
    s
}

// ---------- lemmas ----------

proof fn lemma_clean_pieces_normal(pieces: Seq<Seq<char>>)
    requires
        forall|i: int| 0 <= i < pieces.len() ==> !pieces[i].contains('/'),
    ensures
        forall|i: int| 0 <= i < clean_pieces(pieces).len() ==> is_normal(#[trigger] clean_pieces(pieces)[i]),
    decreases pieces.len(),
{
    if pieces.len() > 0 {
        lemma_clean_pieces_normal(pieces.drop_last());
        let acc = clean_pieces(pieces.drop_last());
        let p = pieces.last();
        if p == dot_dot() {
            if acc.len() > 0 {
                assert forall|i: int| 0 <= i < acc.drop_last().len() implies is_normal(
                    #[trigger] acc.drop_last()[i],
                ) by {
                    assert(acc.drop_last()[i] == acc[i]);
                }
            }
        } else if p.len() == 0 || p == dot() {
        } else {
            assert forall|i: int| 0 <= i < acc.push(p).len() implies is_normal(#[trigger] acc.push(p)[i]) by {
                if i < acc.len() {
                    assert(acc.push(p)[i] == acc[i]);
                }
            }
        }
    }
}

proof fn lemma_split_on_no_sep(s: Seq<char>, sep: char)
    ensures
        forall|i: int| 0 <= i < split_on(s, sep).len() ==> !(#[trigger] split_on(s, sep)[i]).contains(sep),
    decreases s.len(),
{
    if s.len() > 0 {
        lemma_split_on_no_sep(s.drop_last(), sep);
        lemma_split_on_len(s.drop_last(), sep);
        let rest = split_on(s.drop_last(), sep);
        if s.last() != sep {
            let last = rest.last().push(s.last());
            assert(!last.contains(sep)) by {
                if last.contains(sep) {
                    let k = choose|k: int| 0 <= k < last.len() && last[k] == sep;
                    if k < rest.last().len() {
                        assert(rest.last()[k] == sep);
                        assert(rest[rest.len() - 1] == rest.last());
                    }
                }
            }
            assert forall|i: int| 0 <= i < split_on(s, sep).len() implies !(#[trigger] split_on(s, sep)[i]).contains(sep) by {
                if i < rest.len() - 1 {
                    assert(split_on(s, sep)[i] == rest[i]);
                }
            }
        } else {
            assert forall|i: int| 0 <= i < split_on(s, sep).len() implies !(#[trigger] split_on(s, sep)[i]).contains(sep) by {
                if i < rest.len() {
                    assert(split_on(s, sep)[i] == rest[i]);
                } else {
                    assert(split_on(s, sep)[i] =~= Seq::<char>::empty());
                }
            }
        }
    }
}

// ---------- laws ----------

/// What remains of a relative path is only normal components: no empty,
/// `.` or `..` component and no separator, so it cannot climb out of the
/// directory it is joined to.
pub proof fn law_cleaned_components_normal(rel: Seq<char>)
    ensures
        forall|i: int| 0 <= i < cleaned(rel).len() ==> is_normal(#[trigger] cleaned(rel)[i]),
{
    lemma_split_on_no_sep(rel, '/');
    lemma_clean_pieces_normal(split_on(rel, '/'));
}

/// Every target lies in the workspace root, and past the root's own
/// components it holds only normal ones.
pub proof fn law_target_within_root(s: Sandbox, rel: Seq<char>)
    ensures
        within(s.target_spec(rel), s.root_comps()),
        forall|i: int| s.root_comps().len() <= i < s.target_spec(rel).len() ==> is_normal(#[trigger] s.target_spec(rel)[i]),
{
    law_cleaned_components_normal(rel);
    let full = s.target_spec(rel);
    assert(full.take(s.root_comps().len() as int) =~= s.root_comps());
    assert forall|i: int| s.root_comps().len() <= i < full.len() implies is_normal(#[trigger] full[i]) by {
        assert(full[i] == cleaned(rel)[i - s.root_comps().len()]);
    }
}

/// An accepted path either was checked, in canonical form, to lie in the
/// canonical root, or does not exist yet and lies in the workspace root.
pub proof fn law_accepted_within(s: Sandbox, rel: Seq<char>, probe: PathProbe)
    requires
        s.decide_spec(rel, probe) is Accept,
    ensures
        s.decide_spec(rel, probe)->Accept_0 == s.target_spec(rel),
        within(s.target_spec(rel), s.root_comps()),
        probe matches PathProbe::Exists(Ok(c)) ==> within(path_components(c@), s.canonical_comps()),
{
    law_target_within_root(s, rel);
}

// ---------- executable ----------

fn is_dot(p: &Vec<char>) -> (r: bool)
    ensures
        r == (p@ == dot()),
{
    let r = p.len() == 1 && p[0] == '.';
    proof {
        if r {
            assert(p@ =~= dot());
        }
    }
    r
}

fn is_dot_dot(p: &Vec<char>) -> (r: bool)
    ensures
        r == (p@ == dot_dot()),
{
    let r = p.len() == 2 && p[0] == '.' && p[1] == '.';
    proof {
        if r {
            assert(p@ =~= dot_dot());
        }
        if p@ == dot_dot() {
            assert(p@[0] == '.' && p@[1] == '.');
        }
    }
    r
}

fn copy_chars(v: &Vec<char>) -> (r: Vec<char>)
    ensures
        r@ == v@,
{
    slice_chars(v, 0, v.len())
}

proof fn lemma_comps_view_push(v: Seq<Vec<char>>, x: Vec<char>)
    ensures
        comps_view(v.push(x)) == comps_view(v).push(x@),
{
    assert(comps_view(v.push(x)) =~= comps_view(v).push(x@));
}

/// The named pieces among `pieces[start..]`.
fn named_pieces_from(pieces: &Vec<Vec<char>>, start: usize) -> (r: Vec<Vec<char>>)
    requires
        start <= pieces@.len(),
    ensures
        comps_view(r@) == named_pieces(comps_view(pieces@).subrange(start as int, pieces@.len() as int)),
{
    let ghost pv = comps_view(pieces@);
    let mut out: Vec<Vec<char>> = Vec::new();
    let mut i = start;
    assert(pv.subrange(start as int, start as int) =~= Seq::<Seq<char>>::empty());
    while i < pieces.len()
        invariant
            start <= i <= pieces@.len(),
            pv == comps_view(pieces@),
            comps_view(out@) == named_pieces(pv.subrange(start as int, i as int)),
        decreases pieces.len() - i,
    {
        let ghost sub = pv.subrange(start as int, i + 1);
        assert(sub.drop_last() =~= pv.subrange(start as int, i as int));
        assert(sub.last() == pieces@[i as int]@);
        if pieces[i].len() > 0 && !is_dot(&pieces[i]) {
            let c = copy_chars(&pieces[i]);
            proof {
                lemma_comps_view_push(out@, c);
            }
            out.push(c);
        }
        i = i + 1;
    }
    out
}

/// The components of the path `s`.
pub fn path_components_exec(s: &str) -> (r: Vec<Vec<char>>)
    ensures
        comps_view(r@) == path_components(s@),
{
    let v = collect_chars(s);
    let pieces = split_chars(&v, '/');
    let ghost pv = comps_view(pieces@);
    proof {
        lemma_split_on_len(v@, '/');
        assert(pv == split_on(s@, '/'));
        assert(pv.subrange(0, pv.len() as int) =~= pv);
        assert(pv.subrange(1, pv.len() as int) =~= pv.drop_first());
    }
    if v.len() > 0 && v[0] == '/' {
        let mut out: Vec<Vec<char>> = Vec::new();
        let mut sep: Vec<char> = Vec::new();
        sep.push('/');
        out.push(sep);
        assert(out@[0]@ =~= root_comp());
        let rest = named_pieces_from(&pieces, 0);
        let mut i: usize = 0;
        assert(comps_view(out@) =~= seq![root_comp()]);
        while i < rest.len()
            invariant
                i <= rest@.len(),
                comps_view(out@) == seq![root_comp()] + comps_view(rest@).take(i as int),
            decreases rest.len() - i,
        {
            let c = copy_chars(&rest[i]);
            proof {
                lemma_comps_view_push(out@, c);
                assert(comps_view(rest@).take(i + 1) =~= comps_view(rest@).take(i as int).push(rest@[i as int]@));
            }
            out.push(c);
            i = i + 1;
        }
        assert(comps_view(rest@).take(rest@.len() as int) =~= comps_view(rest@));
        out
    } else if is_dot(&pieces[0]) {
        let mut out: Vec<Vec<char>> = Vec::new();
        let mut d: Vec<char> = Vec::new();
        d.push('.');
        out.push(d);
        assert(out@[0]@ =~= dot());
        let rest = named_pieces_from(&pieces, 1);
        let mut i: usize = 0;
        assert(comps_view(out@) =~= seq![dot()]);
        while i < rest.len()
            invariant
                i <= rest@.len(),
                comps_view(out@) == seq![dot()] + comps_view(rest@).take(i as int),
            decreases rest.len() - i,
        {
            let c = copy_chars(&rest[i]);
            proof {
                lemma_comps_view_push(out@, c);
                assert(comps_view(rest@).take(i + 1) =~= comps_view(rest@).take(i as int).push(rest@[i as int]@));
            }
            out.push(c);
            i = i + 1;
        }
        assert(comps_view(rest@).take(rest@.len() as int) =~= comps_view(rest@));
        out
    } else {
        named_pieces_from(&pieces, 0)
    }
}

/// The normal components that remain of the relative path `rel`.
pub fn clean_components(rel: &str) -> (r: Vec<Vec<char>>)
    ensures
        comps_view(r@) == cleaned(rel@),
{
    let v = collect_chars(rel);
    let pieces = split_chars(&v, '/');
    let ghost pv = comps_view(pieces@);
    let mut out: Vec<Vec<char>> = Vec::new();
    let mut i: usize = 0;
    assert(pv.take(0) =~= Seq::<Seq<char>>::empty());
    while i < pieces.len()
        invariant
            i <= pieces@.len(),
            pv == comps_view(pieces@),
            comps_view(out@) == clean_pieces(pv.take(i as int)),
        decreases pieces.len() - i,
    {
        let ghost t = pv.take(i + 1);
        assert(t.drop_last() =~= pv.take(i as int));
        assert(t.last() == pieces@[i as int]@);
        if is_dot_dot(&pieces[i]) {
            if out.len() > 0 {
                let ghost ob = out@;
                out.pop();
                assert(comps_view(out@) =~= comps_view(ob).drop_last());
            }
        } else if pieces[i].len() > 0 && !is_dot(&pieces[i]) {
            let c = copy_chars(&pieces[i]);
            proof {
                lemma_comps_view_push(out@, c);
            }
            out.push(c);
        }
        i = i + 1;
    }
    assert(pv.take(pieces@.len() as int) =~= pv);
    out
}

/// Whether the components of `b` start with those of `a`.
pub fn within_exec(b: &Vec<Vec<char>>, a: &Vec<Vec<char>>) -> (r: bool)
    ensures
        r == within(comps_view(b@), comps_view(a@)),
{
    if a.len() > b.len() {
        return false;
    }
    let mut i: usize = 0;
    while i < a.len()
        invariant
            i <= a@.len() <= b@.len(),
            forall|j: int| 0 <= j < i ==> a@[j]@ == b@[j]@,
        decreases a.len() - i,
    {
        if !crate::strutil::chars_eq(&a[i], &b[i]) {
            assert(comps_view(b@).take(a@.len() as int)[i as int] == b@[i as int]@);
            return false;
        }
        i = i + 1;
    }
    assert(comps_view(b@).take(a@.len() as int) =~= comps_view(a@));
    true
}

fn to_strings(v: &Vec<Vec<char>>) -> (r: Vec<String>)
    ensures
        strings_view(r@) == comps_view(v@),
{
    let mut out: Vec<String> = Vec::new();
    let mut i: usize = 0;
    while i < v.len()
        invariant
            i <= v@.len(),
            strings_view(out@) == comps_view(v@).take(i as int),
        decreases v.len() - i,
    {
        let s = string_from_chars(&v[i]);
        let ghost ob = out@;
        out.push(s);
        proof {
            assert(out@ =~= ob.push(s));
            assert(strings_view(out@) =~= strings_view(ob).push(s@));
            assert(comps_view(v@).take(i + 1) =~= comps_view(v@).take(i as int).push(v@[i as int]@));
        }
        i = i + 1;
    }
    assert(comps_view(v@).take(v@.len() as int) =~= comps_view(v@));
    out
}

fn append_comps(dst: &mut Vec<Vec<char>>, src: &Vec<Vec<char>>)
    ensures
        comps_view(final(dst)@) == comps_view(old(dst)@) + comps_view(src@),
{
    let mut i: usize = 0;
    while i < src.len()
        invariant
            i <= src@.len(),
            comps_view(dst@) == comps_view(old(dst)@) + comps_view(src@).take(i as int),
        decreases src.len() - i,
    {
        let c = copy_chars(&src[i]);
        proof {
            lemma_comps_view_push(dst@, c);
            assert(comps_view(src@).take(i + 1) =~= comps_view(src@).take(i as int).push(src@[i as int]@));
        }
        dst.push(c);
        i = i + 1;
    }
    assert(comps_view(src@).take(src@.len() as int) =~= comps_view(src@));
}

impl Sandbox {
    /// A sandbox rooted at `workspace_root`, whose canonical form is
    /// `canonical_root` where the file system could give one (else the root
    /// itself), that runs only `allowed_commands`.
    pub fn new(workspace_root: String, canonical_root: Option<String>, allowed_commands: Vec<String>) -> (s: Sandbox)
        ensures
            s.workspace_root@ == workspace_root@,
            s.canonical_root@ == (match canonical_root {
                Some(c) => c@,
                None => workspace_root@,
            }),
            s.allowed_commands@ == allowed_commands@,
    {
        let canonical = match canonical_root {
            Some(c) => c,
            None => workspace_root.clone(),
        };
        Sandbox { workspace_root, canonical_root: canonical, allowed_commands }
    }

    fn target_comps(&self, rel: &str) -> (r: Vec<Vec<char>>)
        ensures
            comps_view(r@) == self.target_spec(rel@),
    {
        let mut full = path_components_exec(self.workspace_root.as_str());
        let rest = clean_components(rel);
        append_comps(&mut full, &rest);
        full
    }

    /// The components of the path that `rel` names in the workspace.
    pub fn target(&self, rel: &str) -> (r: Vec<String>)
        ensures
            strings_view(r@) == self.target_spec(rel@),
    {
        let full = self.target_comps(rel);
        to_strings(&full)
    }

    /// The components of the parent of the path that `rel` names, where it
    /// has one: the directory whose existence decides on a new file.
    pub fn target_parent(&self, rel: &str) -> (r: Option<Vec<String>>)
        ensures
            match parent_of(self.target_spec(rel@)) {
                Some(p) => r matches Some(v) && strings_view(v@) == p,
                None => r is None,
            },
    {
        let mut full = self.target_comps(rel);
        if full.len() == 0 {
            return None;
        }
        let n = full.len();
        let last_is_root = full[n - 1].len() == 1 && full[n - 1][0] == '/';
        proof {
            if last_is_root {
                assert(full@[n - 1]@ =~= root_comp());
            }
            if comps_view(full@).last() == root_comp() {
                assert(full@[n - 1]@[0] == '/');
            }
        }
        if last_is_root {
            return None;
        }
        let ghost fb = full@;
        full.pop();
        assert(comps_view(full@) =~= comps_view(fb).drop_last());
        Some(to_strings(&full))
    }

    /// The path that `rel` names, if the sandbox lets it be used, given what
    /// the file system says of it.
    pub fn safe_path(&self, rel: &str, probe: PathProbe) -> (r: Result<Vec<String>, SandboxError>)
        ensures
            decision_matches(r, self.decide_spec(rel@, probe), rel@),
    {
        let full = self.target_comps(rel);
        let ghost fv = comps_view(full@);
        let resolved: Vec<Vec<char>> = match probe {
            PathProbe::Exists(Err(e)) => {
                return Err(SandboxError::Io(e));
            },
            PathProbe::ParentExists(Err(e)) => {
                return Err(SandboxError::Io(e));
            },
            PathProbe::Missing => {
                let root = path_components_exec(self.workspace_root.as_str());
                let n = full.len();
                let no_parent = n == 0 || (full[n - 1].len() == 1 && full[n - 1][0] == '/');
                proof {
                    if n > 0 && full@[n - 1]@ == root_comp() {
                        assert(full@[n - 1]@[0] == '/');
                    }
                    if n > 0 && full[n - 1].len() == 1 && full@[n - 1]@[0] == '/' {
                        assert(full@[n - 1]@ =~= root_comp());
                    }
                }
                if no_parent {
                    return Err(SandboxError::Invalid(rel.to_owned()));
                }
                if !within_exec(&full, &root) {
                    return Err(SandboxError::Escapes(rel.to_owned()));
                }
                return Ok(to_strings(&full));
            },
            PathProbe::Exists(Ok(c)) => path_components_exec(c.as_str()),
            PathProbe::ParentExists(Ok(c)) => {
                let mut base = path_components_exec(c.as_str());
                let n = full.len();
                if n > 0 {
                    let last = &full[n - 1];
                    let special = (last.len() == 1 && last[0] == '/') || is_dot(last) || is_dot_dot(last);
                    proof {
                        if last@ == root_comp() {
                            assert(last@[0] == '/');
                        }
                        if last.len() == 1 && last@[0] == '/' {
                            assert(last@ =~= root_comp());
                        }
                    }
                    if !special {
                        let name = copy_chars(last);
                        proof {
                            lemma_comps_view_push(base@, name);
                        }
                        base.push(name);
                    }
                }
                base
            },
        };
        let canon = path_components_exec(self.canonical_root.as_str());
        if within_exec(&resolved, &canon) {
            Ok(to_strings(&full))
        } else {
            Err(SandboxError::Escapes(rel.to_owned()))
        }
    }

    /// The program that `cmd` runs, where it is one of the allowed commands;
    /// otherwise the refusal.
    pub fn check_command(&self, cmd: &str) -> (r: Result<String, SandboxError>)
        ensures
            match r {
                Ok(b) => b@ == base_command(cmd@) && strings_view(self.allowed_commands@).contains(b@),
                Err(e) => e matches SandboxError::CommandNotAllowed(b) && b@ == base_command(cmd@)
                    && !strings_view(self.allowed_commands@).contains(b@),
            },
    {
        let base = base_command_exec(cmd);
        let mut i: usize = 0;
        while i < self.allowed_commands.len()
            invariant
                i <= self.allowed_commands@.len(),
                base@ == base_command(cmd@),
                forall|j: int| 0 <= j < i ==> #[trigger] self.allowed_commands@[j]@ != base@,
            decreases self.allowed_commands.len() - i,
        {
            if str_eq(self.allowed_commands[i].as_str(), base.as_str()) {
                assert(strings_view(self.allowed_commands@)[i as int] == base@);
                return Ok(base);
            }
            i = i + 1;
        }
        proof {
            if strings_view(self.allowed_commands@).contains(base@) {
                let k = choose|k: int|
                    0 <= k < strings_view(self.allowed_commands@).len() && strings_view(self.allowed_commands@)[k] == base@;
                assert(self.allowed_commands@[k]@ != base@);
            }
        }
        Err(SandboxError::CommandNotAllowed(base))
    }
}

/// The first word of `cmd`, or `cmd` itself where it has none.
pub fn base_command_exec(cmd: &str) -> (r: String)
    ensures
        r@ == base_command(cmd@),
{
    let v = collect_chars(cmd);
    let a = crate::strutil::skip_ws_forward(&v, 0);
    if a >= v.len() {
        return cmd.to_owned();
    }
    let mut b = a;
    while b < v.len() && !char_is_whitespace(v[b])
        invariant
            a <= b <= v@.len(),
            run_end(v@, b as int, non_ws_pred()) == run_end(v@, a as int, non_ws_pred()),
        decreases v.len() - b,
    {
        b = b + 1;
    }
    let w = slice_chars(&v, a, b);
    string_from_chars(&w)
}

/// The outcome of a command that ran: its output where it succeeded, else
/// its error output as the failure.
pub fn command_result(success: bool, stdout: String, stderr: String) -> (r: Result<String, SandboxError>)
    ensures
        success ==> (r matches Ok(o) && o@ == stdout@),
        !success ==> (r matches Err(SandboxError::CommandFailed(e)) && e@ == stderr@),
{
    if success {
        Ok(stdout)
    } else {
        Err(SandboxError::CommandFailed(stderr))
    }
}

/// The commands that the agent's sandbox lets run.
pub fn default_allowed_commands() -> (r: Vec<String>)
    ensures
        strings_view(r@) == seq!["cargo"@, "git"@, "python"@, "npm"@],
{
    let mut v: Vec<String> = Vec::new();
    v.push("cargo".to_owned());
    v.push("git".to_owned());
    v.push("python".to_owned());
    v.push("npm".to_owned());
    assert(strings_view(v@) =~= seq!["cargo"@, "git"@, "python"@, "npm"@]);
    v
}

} // verus!
