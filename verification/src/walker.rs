//! The ignore-aware walker.
//!
//! The walker reads a directory tree held in memory as `FsNode` values
//! and reports every path hidden by the `.gitignore` / `.gitnuke` rules
//! in scope at its location. Rule scope along a descent is carried in
//! two persistent stacks of `RuleSet`s, each queried tip first so closer
//! rules win: the nuke stack — the built-in whitelist protecting
//! source-control metadata, under any `.gitnuke` rules — is consulted
//! first and outranks the ignore stack, which holds the `.gitignore`
//! rules. A directory holding `.git` or `.hg` is a repository root: the
//! ignore stack is reset there to the global tip, while the nuke stack,
//! whitelist included, stays in force, so metadata is never reported
//! unless a `.gitnuke` rule overrides the whitelist deliberately.
//!
//! A directory matched by an ignore rule is normally reported whole. If
//! its subtree holds a whitelisted entry, the walker instead descends
//! and reports the still-hidden contents individually, so a deliberate
//! exemption under an ignored directory is honoured.

use crate::immutable_stack::ImmutableStack;
use crate::rules::{compiles_of, rule_match_of, MatchOrigin, RuleMatch, RuleSet};
use vstd::prelude::*;
use vstd::string::StringExecFns;

verus! {

/// A filesystem subtree held in memory: what the walker's logic reads of
/// a directory tree. `text` carries a file's contents where the walker
/// needs them (ignore files); for other files it may stay empty.
pub enum FsNode {
    File { name: String, size: u64, text: String },
    Dir { name: String, entries: Vec<FsNode> },
}

/// Height of a node: files are flat, a directory is one above its
/// tallest child.
pub open spec fn node_height(n: FsNode) -> nat
    decreases n,
{
    match n {
        FsNode::File { .. } => 0,
        FsNode::Dir { name, entries } => 1 + entries_height(entries@),
    }
}

/// Height of the tallest node in a sequence.
pub open spec fn entries_height(es: Seq<FsNode>) -> nat
    decreases es,
{
    if es.len() == 0 {
        0
    } else {
        let h0 = node_height(es.first());
        let hr = entries_height(es.drop_first());
        if h0 > hr {
            h0
        } else {
            hr
        }
    }
}

/// The spec-level content of a rule set: the base directory it was
/// compiled against and the text it was compiled from.
pub type RulesModel = Seq<(Seq<char>, Seq<char>)>;

/// The content of a whole stack of rule sets, tip first.
pub open spec fn rules_model(rules: Seq<RuleSet>) -> RulesModel {
    rules.map_values(|r: RuleSet| (r.base(), r.lines()))
}

/// The verdict of a stack of rule sets for one path: the first rule set,
/// tip first, whose own verdict is not `Unmatched` decides.
pub open spec fn verdict_of(m: RulesModel, path: Seq<char>, is_dir: bool) -> RuleMatch
    decreases m.len(),
{
    if m.len() == 0 {
        RuleMatch::Unmatched
    } else {
        let v = rule_match_of(m.first().0, m.first().1, path, is_dir);
        if v != RuleMatch::Unmatched {
            v
        } else {
            verdict_of(m.drop_first(), path, is_dir)
        }
    }
}

pub open spec fn node_name(n: FsNode) -> Seq<char> {
    match n {
        FsNode::File { name, .. } => name@,
        FsNode::Dir { name, .. } => name@,
    }
}

pub open spec fn node_is_dir(n: FsNode) -> bool {
    n is Dir
}

/// The size a plain file reports; a directory itself has none.
pub open spec fn node_size(n: FsNode) -> u64 {
    match n {
        FsNode::File { name, size, text } => size,
        FsNode::Dir { .. } => 0,
    }
}

/// Whether some entry (file or directory) carries this name.
pub open spec fn has_entry_named(es: Seq<FsNode>, name: Seq<char>) -> bool {
    exists|i: int| 0 <= i < es.len() && node_name(#[trigger] es[i]) == name
}

/// The text of the first plain file among `es` carrying this name.
pub open spec fn file_text_in(es: Seq<FsNode>, name: Seq<char>) -> Option<Seq<char>>
    decreases es,
{
    if es.len() == 0 {
        None
    } else {
        match es.first() {
            FsNode::File { name: n, size, text } => if n@ == name {
                Some(text@)
            } else {
                file_text_in(es.drop_first(), name)
            },
            FsNode::Dir { .. } => file_text_in(es.drop_first(), name),
        }
    }
}

/// A directory holding a `.git` or `.hg` entry is a repository root:
/// rules inherited from outside do not apply within.
pub open spec fn is_repo_root(es: Seq<FsNode>) -> bool {
    has_entry_named(es, ".git"@) || has_entry_named(es, ".hg"@)
}

/// Push the rules of the named ignore file of this directory, if it is
/// present and its text compiles, onto the scope.
pub open spec fn push_file_rules(
    m: RulesModel,
    dir_path: Seq<char>,
    es: Seq<FsNode>,
    name: Seq<char>,
) -> RulesModel {
    match file_text_in(es, name) {
        Some(t) => if compiles_of(dir_path, t) {
            seq![(dir_path, t)] + m
        } else {
            m
        },
        None => m,
    }
}

/// The ignore scope in force inside a directory: the inherited ignore
/// stack `m` — reset to the global tip `g` at a repository root — with
/// the directory's own `.gitignore` on top.
pub open spec fn scoped_rules(
    m: RulesModel,
    g: RulesModel,
    dir_path: Seq<char>,
    es: Seq<FsNode>,
) -> RulesModel {
    let base = if is_repo_root(es) {
        g
    } else {
        m
    };
    push_file_rules(base, dir_path, es, ".gitignore"@)
}

/// The nuke scope in force inside a directory: the inherited nuke stack
/// — never reset, so the built-in whitelist at its bottom stays in
/// force everywhere — with the directory's own `.gitnuke` on top.
pub open spec fn scoped_nukes(nm: RulesModel, dir_path: Seq<char>, es: Seq<FsNode>) -> RulesModel {
    push_file_rules(nm, dir_path, es, ".gitnuke"@)
}

/// The verdict for one path: the nuke stack decides first; only where
/// it is silent does the ignore stack speak. The built-in whitelist so
/// outranks every `.gitignore` rule and yields only to `.gitnuke`
/// rules, which sit above it on the nuke stack.
pub open spec fn combined_verdict(
    nm: RulesModel,
    m: RulesModel,
    path: Seq<char>,
    is_dir: bool,
) -> RuleMatch {
    let v = verdict_of(nm, path, is_dir);
    if v != RuleMatch::Unmatched {
        v
    } else {
        verdict_of(m, path, is_dir)
    }
}

/// A path under a directory: the directory's path, a separator, the
/// entry's name.
pub open spec fn child_path_of(dir_path: Seq<char>, name: Seq<char>) -> Seq<char> {
    dir_path + seq!['/'] + name
}

/// Scan of a subtree that an ignore rule has hidden: whether it holds a
/// whitelisted entry (first component), and the hidden contents reported
/// individually (second component), used when the subtree is not to be
/// reported whole.
///
/// Within the hidden subtree the usual scope mechanics go on: nested
/// ignore files are pushed and a nested repository root resets the scope
/// to the global tip and ends the inherited hiding. `inherited` says
/// whether an ancestor's ignore verdict still covers this directory, so
/// an entry no rule mentions counts as hidden content exactly when
/// `inherited` holds.
pub open spec fn scan_dir(
    nm: RulesModel,
    m: RulesModel,
    g: RulesModel,
    dir_path: Seq<char>,
    es: Seq<FsNode>,
    inherited: bool,
) -> (bool, Seq<Seq<char>>)
    decreases es, 1int,
{
    let inh = !is_repo_root(es) && inherited;
    let nm2 = scoped_nukes(nm, dir_path, es);
    let m2 = scoped_rules(m, g, dir_path, es);
    scan_children(nm2, m2, g, dir_path, es, inh)
}

/// The per-entry fold of `scan_dir`, processing entries front to back
/// under the already-scoped stacks `nm2` and `m2`.
pub open spec fn scan_children(
    nm2: RulesModel,
    m2: RulesModel,
    g: RulesModel,
    dir_path: Seq<char>,
    es: Seq<FsNode>,
    inh: bool,
) -> (bool, Seq<Seq<char>>)
    decreases es, 0int,
{
    if es.len() == 0 {
        (false, Seq::empty())
    } else {
        let child = es.first();
        let rest = scan_children(nm2, m2, g, dir_path, es.drop_first(), inh);
        let cpath = child_path_of(dir_path, node_name(child));
        let v = combined_verdict(nm2, m2, cpath, node_is_dir(child));
        match child {
            FsNode::File { .. } => {
                if v == RuleMatch::Whitelisted {
                    (true, rest.1)
                } else if v == RuleMatch::Ignored || (v == RuleMatch::Unmatched && inh) {
                    (rest.0, seq![cpath] + rest.1)
                } else {
                    rest
                }
            },
            FsNode::Dir { name, entries } => {
                if v == RuleMatch::Whitelisted {
                    // a whitelisted directory is kept whole: no descent
                    (true, rest.1)
                } else {
                    let child_inh = v == RuleMatch::Ignored || inh;
                    let sub = scan_dir(nm2, m2, g, cpath, entries@, child_inh);
                    let items = if child_inh && !sub.0 {
                        seq![cpath]
                    } else {
                        sub.1
                    };
                    (rest.0 || sub.0, items + rest.1)
                }
            },
        }
    }
}

/// What the walker reports for a directory found hidden by an ignore
/// rule: the directory itself when nothing under it is whitelisted, else
/// its still-hidden contents, reported individually.
pub open spec fn resolve_ignored_dir(
    nm2: RulesModel,
    m2: RulesModel,
    g: RulesModel,
    cpath: Seq<char>,
    entries: Seq<FsNode>,
) -> Seq<Seq<char>> {
    let sub = scan_dir(nm2, m2, g, cpath, entries, true);
    if !sub.0 {
        seq![cpath]
    } else {
        sub.1
    }
}

/// The paths the walker reports under a directory, in discovery order:
/// hidden files as they stand, hidden directories through
/// `resolve_ignored_dir`, whitelisted entries never (and a whitelisted
/// directory is not descended into), unmatched directories recursively.
pub open spec fn walk_dir(
    nm: RulesModel,
    m: RulesModel,
    g: RulesModel,
    dir_path: Seq<char>,
    es: Seq<FsNode>,
) -> Seq<Seq<char>>
    decreases es, 1int,
{
    let nm2 = scoped_nukes(nm, dir_path, es);
    let m2 = scoped_rules(m, g, dir_path, es);
    walk_children(nm2, m2, g, dir_path, es)
}

/// The per-entry fold of `walk_dir` under the already-scoped stacks
/// `nm2` and `m2`.
pub open spec fn walk_children(
    nm2: RulesModel,
    m2: RulesModel,
    g: RulesModel,
    dir_path: Seq<char>,
    es: Seq<FsNode>,
) -> Seq<Seq<char>>
    decreases es, 0int,
{
    if es.len() == 0 {
        Seq::empty()
    } else {
        let child = es.first();
        let rest = walk_children(nm2, m2, g, dir_path, es.drop_first());
        let cpath = child_path_of(dir_path, node_name(child));
        let v = combined_verdict(nm2, m2, cpath, node_is_dir(child));
        match child {
            FsNode::File { .. } => {
                if v == RuleMatch::Ignored {
                    seq![cpath] + rest
                } else {
                    rest
                }
            },
            FsNode::Dir { name, entries } => {
                if v == RuleMatch::Ignored {
                    resolve_ignored_dir(nm2, m2, g, cpath, entries@) + rest
                } else if v == RuleMatch::Whitelisted {
                    rest
                } else {
                    walk_dir(nm2, m2, g, cpath, entries@) + rest
                }
            },
        }
    }
}

/// The views of a list of path strings.
pub open spec fn paths_view(s: Seq<String>) -> Seq<Seq<char>> {
    s.map_values(|x: String| x@)
}

fn name_is(n: &String, target: &str) -> (r: bool)
    ensures
        r == (n@ == target@),
{
    let t = target.to_owned();
    *n == t
}

impl FsNode {
    pub fn name(&self) -> (r: &String)
        ensures
            r@ == node_name(*self),
    {
        match self {
            FsNode::File { name, .. } => name,
            FsNode::Dir { name, .. } => name,
        }
    }

    pub fn is_dir(&self) -> (r: bool)
        ensures
            r == node_is_dir(*self),
    {
        match self {
            FsNode::File { .. } => false,
            FsNode::Dir { .. } => true,
        }
    }

    pub fn file_size(&self) -> (r: u64)
        ensures
            r == node_size(*self),
    {
        match self {
            FsNode::File { name: _, size, text: _ } => *size,
            FsNode::Dir { .. } => 0,
        }
    }
}

/// Whether two nodes carry the same tree: the same variant, name, size
/// and text, with entries alike element for element. (Two equal-looking
/// `Vec`s need not be equal as values, so a deep copy is pinned by this
/// relation rather than by `==`.)
pub open spec fn node_like(a: FsNode, b: FsNode) -> bool
    decreases a, 1int,
{
    match (a, b) {
        (
            FsNode::File { name: n1, size: s1, text: t1 },
            FsNode::File { name: n2, size: s2, text: t2 },
        ) => n1@ == n2@ && s1 == s2 && t1@ == t2@,
        (
            FsNode::Dir { name: n1, entries: e1 },
            FsNode::Dir { name: n2, entries: e2 },
        ) => n1@ == n2@ && entries_like(e1@, e2@),
        _ => false,
    }
}

/// `node_like`, element for element.
pub open spec fn entries_like(a: Seq<FsNode>, b: Seq<FsNode>) -> bool
    decreases a, 0int,
{
    &&& a.len() == b.len()
    &&& (a.len() == 0 || (node_like(a.first(), b.first()) && entries_like(
        a.drop_first(),
        b.drop_first(),
    )))
}

proof fn lemma_entries_like_pointwise(a: Seq<FsNode>, b: Seq<FsNode>)
    requires
        a.len() == b.len(),
        forall|j: int| 0 <= j < a.len() ==> node_like(#[trigger] a[j], b[j]),
    ensures
        entries_like(a, b),
    decreases a.len(),
{
    if a.len() > 0 {
        assert(node_like(a[0], b[0]));
        assert(forall|j: int|
            0 <= j < a.drop_first().len() ==> node_like(#[trigger] a.drop_first()[j], b.drop_first()[j]))
            by {
            assert(forall|j: int| 0 <= j < a.len() - 1 ==> a.drop_first()[j] == #[trigger] a[j
                + 1] && b.drop_first()[j] == b[j + 1]);
        }
        lemma_entries_like_pointwise(a.drop_first(), b.drop_first());
    }
}

fn clone_node(n: &FsNode) -> (r: FsNode)
    ensures
        node_like(r, *n),
    decreases n,
{
    match n {
        FsNode::File { name, size, text } => {
            FsNode::File { name: name.clone(), size: *size, text: text.clone() }
        },
        FsNode::Dir { name, entries } => {
            let mut out: Vec<FsNode> = Vec::new();
            let mut i: usize = 0;
            while i < entries.len()
                invariant
                    *n == (FsNode::Dir { name: *name, entries: *entries }),
                    i <= entries@.len(),
                    out@.len() == i,
                    forall|j: int| 0 <= j < i ==> node_like(#[trigger] out@[j], entries@[j]),
                decreases entries@.len() - i,
            {
                proof {
                    assert(decreases_to!(*n => n->Dir_entries));
                    assert(decreases_to!(n->Dir_entries => n->Dir_entries@));
                    assert(decreases_to!(n->Dir_entries@ => n->Dir_entries@[i as int]));
                }
                out.push(clone_node(&entries[i]));
                i = i + 1;
            }
            proof {
                lemma_entries_like_pointwise(out@, entries@);
            }
            FsNode::Dir { name: name.clone(), entries: out }
        },
    }
}

impl Clone for FsNode {
    /// A deep copy carrying the same tree; see `node_like`.
    fn clone(&self) -> (r: Self)
        ensures
            node_like(r, *self),
    {
        clone_node(self)
    }
}


/// Whether some entry (file or directory) carries this name.
pub fn has_entry(entries: &Vec<FsNode>, name: &str) -> (r: bool)
    ensures
        r == has_entry_named(entries@, name@),
{
    let mut i: usize = 0;
    while i < entries.len()
        invariant
            i <= entries@.len(),
            forall|j: int| 0 <= j < i ==> node_name(#[trigger] entries@[j]) != name@,
        decreases entries@.len() - i,
    {
        if name_is(entries[i].name(), name) {
            return true;
        }
        i = i + 1;
    }
    false
}

/// The text of the first plain file among the entries carrying this name.
pub fn find_file_text<'a>(entries: &'a Vec<FsNode>, name: &str) -> (r: Option<&'a String>)
    ensures
        match r {
            Some(t) => file_text_in(entries@, name@) == Some(t@),
            None => file_text_in(entries@, name@) is None,
        },
{
    let mut i: usize = 0;
    proof {
        assert(entries@.skip(0) =~= entries@);
    }
    while i < entries.len()
        invariant
            i <= entries@.len(),
            file_text_in(entries@, name@) == file_text_in(entries@.skip(i as int), name@),
        decreases entries@.len() - i,
    {
        proof {
            assert(entries@.skip(i as int).first() == entries@[i as int]);
            assert(entries@.skip(i as int).drop_first() =~= entries@.skip(i + 1int));
        }
        match &entries[i] {
            FsNode::File { name: n, size: _, text } => {
                if name_is(n, name) {
                    return Some(text);
                }
            },
            FsNode::Dir { .. } => {},
        }
        i = i + 1;
    }
    proof {
        assert(entries@.skip(entries@.len() as int) =~= Seq::<FsNode>::empty());
    }
    None
}

/// `dir/name`.
pub fn join_path(dir: &String, name: &String) -> (r: String)
    ensures
        r@ == child_path_of(dir@, name@),
{
    let mut s = dir.clone();
    s.append("/");
    s.append(name.as_str());
    proof {
        reveal_strlit("/");
        assert(s@ =~= child_path_of(dir@, name@));
    }
    s
}

/// The verdict of a stack of rule sets for one path, querying tip first.
fn stack_verdict(stack: &ImmutableStack<RuleSet>, path: &String, is_dir: bool) -> (m: (
    RuleMatch,
    Option<MatchOrigin>,
))
    ensures
        m.0 == verdict_of(rules_model(stack@), path@, is_dir),
{
    let refs = stack.iter();
    let ghost model = rules_model(stack@);
    let mut i: usize = 0;
    proof {
        assert(model.skip(0) =~= model);
    }
    while i < refs.len()
        invariant
            i <= refs@.len(),
            refs@.len() == stack@.len(),
            forall|j: int| 0 <= j < refs@.len() ==> refs@[j] == stack@[j],
            model == rules_model(stack@),
            verdict_of(model, path@, is_dir) == verdict_of(
                model.skip(i as int),
                path@,
                is_dir,
            ),
        decreases refs@.len() - i,
    {
        proof {
            assert(model.skip(i as int).first() == model[i as int]);
            assert(model.skip(i as int).drop_first() =~= model.skip(i + 1int));
            assert(model[i as int] == (stack@[i as int].base(), stack@[i as int].lines()));
        }
        let (v, origin) = refs[i].matched_with_origin(path.as_str(), is_dir);
        if !matches!(v, RuleMatch::Unmatched) {
            return (v, origin);
        }
        i = i + 1;
    }
    proof {
        assert(model.skip(model.len() as int) =~= Seq::<(Seq<char>, Seq<char>)>::empty());
    }
    (RuleMatch::Unmatched, None)
}

/// The verdict for one path under the two stacks in scope: the nuke
/// stack (whitelist and `.gitnuke` rules) decides first, the ignore
/// stack only where it is silent; each stack is queried tip first.
pub fn matched_by_stacks(
    nukes: &ImmutableStack<RuleSet>,
    rules: &ImmutableStack<RuleSet>,
    path: &String,
    is_dir: bool,
) -> (m: RuleMatch)
    ensures
        m == combined_verdict(rules_model(nukes@), rules_model(rules@), path@, is_dir),
{
    let (v, _) = matched_by_stacks_with_origin(nukes, rules, path, is_dir);
    v
}

/// As `matched_by_stacks`, together with the deciding glob's text and
/// source file for diagnostics.
pub fn matched_by_stacks_with_origin(
    nukes: &ImmutableStack<RuleSet>,
    rules: &ImmutableStack<RuleSet>,
    path: &String,
    is_dir: bool,
) -> (m: (RuleMatch, Option<MatchOrigin>))
    ensures
        m.0 == combined_verdict(rules_model(nukes@), rules_model(rules@), path@, is_dir),
{
    let (v, origin) = stack_verdict(nukes, path, is_dir);
    if !matches!(v, RuleMatch::Unmatched) {
        (v, origin)
    } else {
        stack_verdict(rules, path, is_dir)
    }
}

/// The ignore stack in force inside a directory: the inherited stack,
/// reset to the global tip at a repository root, with the directory's
/// own `.gitignore` on top.
pub fn scoped_rule_stack(
    rules: &ImmutableStack<RuleSet>,
    global: &ImmutableStack<RuleSet>,
    dir_path: &String,
    entries: &Vec<FsNode>,
) -> (r: ImmutableStack<RuleSet>)
    ensures
        rules_model(r@) == scoped_rules(
            rules_model(rules@),
            rules_model(global@),
            dir_path@,
            entries@,
        ),
{
    let base = if has_entry(entries, ".git") || has_entry(entries, ".hg") {
        global.clone()
    } else {
        rules.clone()
    };
    let r = push_rules_of_file(&base, dir_path, entries, ".gitignore");
    proof {
        assert(rules_model(base@) =~= (if is_repo_root(entries@) {
            rules_model(global@)
        } else {
            rules_model(rules@)
        }));
    }
    r
}

/// The nuke stack in force inside a directory: the inherited stack —
/// never reset — with the directory's own `.gitnuke` on top.
pub fn scoped_nuke_stack(
    nukes: &ImmutableStack<RuleSet>,
    dir_path: &String,
    entries: &Vec<FsNode>,
) -> (r: ImmutableStack<RuleSet>)
    ensures
        rules_model(r@) == scoped_nukes(rules_model(nukes@), dir_path@, entries@),
{
    push_rules_of_file(nukes, dir_path, entries, ".gitnuke")
}

/// Scan a subtree hidden by an ignore rule: whether it holds a
/// whitelisted entry, and the hidden contents reported individually.
/// The executable form of `scan_dir`.
pub fn scan_subtree(
    nukes: &ImmutableStack<RuleSet>,
    rules: &ImmutableStack<RuleSet>,
    global: &ImmutableStack<RuleSet>,
    dir_path: &String,
    entries: &Vec<FsNode>,
    inherited: bool,
) -> (r: (bool, Vec<String>))
    ensures
        r.0 == scan_dir(
            rules_model(nukes@),
            rules_model(rules@),
            rules_model(global@),
            dir_path@,
            entries@,
            inherited,
        ).0,
        paths_view(r.1@) == scan_dir(
            rules_model(nukes@),
            rules_model(rules@),
            rules_model(global@),
            dir_path@,
            entries@,
            inherited,
        ).1,
    decreases entries@, 1int,
{
    let ghost g = rules_model(global@);
    let ghost nm2 = scoped_nukes(rules_model(nukes@), dir_path@, entries@);
    let ghost m2 = scoped_rules(rules_model(rules@), g, dir_path@, entries@);
    let inh = !(has_entry(entries, ".git") || has_entry(entries, ".hg")) && inherited;
    let n2 = scoped_nuke_stack(nukes, dir_path, entries);
    let s2 = scoped_rule_stack(rules, global, dir_path, entries);
    let mut hit = false;
    let mut items: Vec<String> = Vec::new();
    let mut i: usize = 0;
    proof {
        assert(entries@.skip(0) =~= entries@);
        assert(paths_view(items@) =~= Seq::<Seq<char>>::empty());
    }
    while i < entries.len()
        invariant
            i <= entries@.len(),
            rules_model(n2@) == nm2,
            rules_model(s2@) == m2,
            g == rules_model(global@),
            inh == (!is_repo_root(entries@) && inherited),
            scan_children(nm2, m2, g, dir_path@, entries@, inh).0 == (hit || scan_children(
                nm2,
                m2,
                g,
                dir_path@,
                entries@.skip(i as int),
                inh,
            ).0),
            scan_children(nm2, m2, g, dir_path@, entries@, inh).1 == paths_view(items@)
                + scan_children(nm2, m2, g, dir_path@, entries@.skip(i as int), inh).1,
        decreases entries@.len() - i,
    {
        proof {
            assert(entries@.skip(i as int).first() == entries@[i as int]);
            assert(entries@.skip(i as int).drop_first() =~= entries@.skip(i + 1int));
        }
        let ghost items_before = items@;
        let ghost hit_before = hit;
        let child = &entries[i];
        let cpath = join_path(dir_path, child.name());
        let v = matched_by_stacks(&n2, &s2, &cpath, child.is_dir());
        match child {
            FsNode::File { .. } => {
                if v == RuleMatch::Whitelisted {
                    hit = true;
                } else if v == RuleMatch::Ignored || (v == RuleMatch::Unmatched && inh) {
                    items.push(cpath);
                    proof {
                        assert(paths_view(items@) =~= paths_view(items_before) + seq![
                            child_path_of(dir_path@, node_name(entries@[i as int])),
                        ]);
                    }
                }
            },
            FsNode::Dir { name: _, entries: child_entries } => {
                if v == RuleMatch::Whitelisted {
                    hit = true;
                } else {
                    let child_inh = v == RuleMatch::Ignored || inh;
                    let (sub_hit, mut sub_items) = scan_subtree(
                        &n2,
                        &s2,
                        global,
                        &cpath,
                        child_entries,
                        child_inh,
                    );
                    if child_inh && !sub_hit {
                        items.push(cpath);
                        proof {
                            assert(paths_view(items@) =~= paths_view(items_before) + seq![
                                child_path_of(dir_path@, node_name(entries@[i as int])),
                            ]);
                        }
                    } else {
                        let ghost sub_seq = sub_items@;
                        items.append(&mut sub_items);
                        proof {
                            assert(paths_view(items@) =~= paths_view(items_before) + paths_view(
                                sub_seq,
                            ));
                        }
                    }
                    hit = hit || sub_hit;
                }
            },
        }
        proof {
            assert(scan_children(nm2, m2, g, dir_path@, entries@, inh).0 == (hit
                || scan_children(nm2, m2, g, dir_path@, entries@.skip(i + 1int), inh).0));
            assert(scan_children(nm2, m2, g, dir_path@, entries@, inh).1 =~= paths_view(items@)
                + scan_children(nm2, m2, g, dir_path@, entries@.skip(i + 1int), inh).1);
        }
        i = i + 1;
    }
    proof {
        assert(entries@.skip(entries@.len() as int) =~= Seq::<FsNode>::empty());
        assert(paths_view(items@) + Seq::<Seq<char>>::empty() =~= paths_view(items@));
    }
    (hit, items)
}

/// Walk a directory tree and report every path hidden by the ignore
/// rules in scope at its location. The executable form of `walk_dir`:
/// hidden files are reported as they stand; a hidden directory is
/// reported whole unless its subtree holds a whitelisted entry, in which
/// case its still-hidden contents are reported individually; whitelisted
/// entries are kept and never descended into; unmatched directories are
/// walked recursively.
pub fn walk_tree(
    nukes: &ImmutableStack<RuleSet>,
    rules: &ImmutableStack<RuleSet>,
    global: &ImmutableStack<RuleSet>,
    dir_path: &String,
    entries: &Vec<FsNode>,
) -> (out: Vec<String>)
    ensures
        paths_view(out@) == walk_dir(
            rules_model(nukes@),
            rules_model(rules@),
            rules_model(global@),
            dir_path@,
            entries@,
        ),
    decreases entries@, 1int,
{
    let ghost g = rules_model(global@);
    let ghost nm2 = scoped_nukes(rules_model(nukes@), dir_path@, entries@);
    let ghost m2 = scoped_rules(rules_model(rules@), g, dir_path@, entries@);
    let n2 = scoped_nuke_stack(nukes, dir_path, entries);
    let s2 = scoped_rule_stack(rules, global, dir_path, entries);
    let mut out: Vec<String> = Vec::new();
    let mut i: usize = 0;
    proof {
        assert(entries@.skip(0) =~= entries@);
        assert(paths_view(out@) =~= Seq::<Seq<char>>::empty());
    }
    while i < entries.len()
        invariant
            i <= entries@.len(),
            rules_model(n2@) == nm2,
            rules_model(s2@) == m2,
            g == rules_model(global@),
            walk_children(nm2, m2, g, dir_path@, entries@) == paths_view(out@) + walk_children(
                nm2,
                m2,
                g,
                dir_path@,
                entries@.skip(i as int),
            ),
        decreases entries@.len() - i,
    {
        proof {
            assert(entries@.skip(i as int).first() == entries@[i as int]);
            assert(entries@.skip(i as int).drop_first() =~= entries@.skip(i + 1int));
        }
        let ghost out_before = out@;
        let child = &entries[i];
        let cpath = join_path(dir_path, child.name());
        let v = matched_by_stacks(&n2, &s2, &cpath, child.is_dir());
        match child {
            FsNode::File { .. } => {
                if v == RuleMatch::Ignored {
                    out.push(cpath);
                    proof {
                        assert(paths_view(out@) =~= paths_view(out_before) + seq![
                            child_path_of(dir_path@, node_name(entries@[i as int])),
                        ]);
                    }
                }
            },
            FsNode::Dir { name: _, entries: child_entries } => {
                if v == RuleMatch::Ignored {
                    let (sub_hit, mut sub_items) = scan_subtree(
                        &n2,
                        &s2,
                        global,
                        &cpath,
                        child_entries,
                        true,
                    );
                    if !sub_hit {
                        out.push(cpath);
                        proof {
                            assert(paths_view(out@) =~= paths_view(out_before) + seq![
                                child_path_of(dir_path@, node_name(entries@[i as int])),
                            ]);
                        }
                    } else {
                        let ghost sub_seq = sub_items@;
                        out.append(&mut sub_items);
                        proof {
                            assert(paths_view(out@) =~= paths_view(out_before) + paths_view(
                                sub_seq,
                            ));
                        }
                    }
                } else if v == RuleMatch::Whitelisted {
                    // kept deliberately: no report, no descent
                } else {
                    let mut sub = walk_tree(&n2, &s2, global, &cpath, child_entries);
                    let ghost sub_seq = sub@;
                    out.append(&mut sub);
                    proof {
                        assert(paths_view(out@) =~= paths_view(out_before) + paths_view(sub_seq));
                    }
                }
            },
        }
        proof {
            assert(walk_children(nm2, m2, g, dir_path@, entries@) =~= paths_view(out@)
                + walk_children(nm2, m2, g, dir_path@, entries@.skip(i + 1int)));
        }
        i = i + 1;
    }
    proof {
        assert(entries@.skip(entries@.len() as int) =~= Seq::<FsNode>::empty());
        assert(paths_view(out@) + Seq::<Seq<char>>::empty() =~= paths_view(out@));
    }
    out
}

/// The stack extended with the rules of the named ignore file of this
/// directory, where the file is present and its text compiles.
fn push_rules_of_file(
    base: &ImmutableStack<RuleSet>,
    dir_path: &String,
    entries: &Vec<FsNode>,
    name: &str,
) -> (r: ImmutableStack<RuleSet>)
    ensures
        rules_model(r@) == push_file_rules(rules_model(base@), dir_path@, entries@, name@),
{
    match find_file_text(entries, name) {
        Some(text) => {
            match RuleSet::compile(dir_path.as_str(), text.as_str()) {
                Some(rs) => {
                    let r = base.push(rs);
                    proof {
                        assert(rules_model(r@) =~= seq![(dir_path@, text@)] + rules_model(
                            base@,
                        ));
                    }
                    r
                },
                None => base.clone(),
            }
        },
        None => base.clone(),
    }
}

/// The base of the nuke stack: the built-in whitelist protecting
/// source-control metadata and the ignore files themselves from being
/// reported. It sits at the nuke stack's bottom, so it outranks every
/// `.gitignore` rule and yields only to `.gitnuke` rules pushed above
/// it.
pub fn whitelist_stack(base: &String) -> (r: Option<ImmutableStack<RuleSet>>)
    ensures
        r is Some <==> compiles_of(base@, "!.git\n!.hg\n!.gitignore\n!.gitnuke"@),
        r matches Some(s) ==> rules_model(s@) == seq![
            (base@, "!.git\n!.hg\n!.gitignore\n!.gitnuke"@),
        ],
{
    match RuleSet::compile(base.as_str(), "!.git\n!.hg\n!.gitignore\n!.gitnuke") {
        Some(rs) => {
            let empty = ImmutableStack::new();
            let r = empty.push(rs);
            proof {
                assert(rules_model(r@) =~= seq![
                    (base@, "!.git\n!.hg\n!.gitignore\n!.gitnuke"@),
                ]);
            }
            Some(r)
        },
        None => None,
    }
}

/// The base of the ignore stack: the user's global ignore rules alone,
/// where they were found, else nothing; the caller obtains them with
/// `RuleSet::load_global` and hands over what came back. This is also
/// the global tip the ignore scope is reset to at a repository root.
pub fn global_stack(global: Option<RuleSet>) -> (r: ImmutableStack<RuleSet>)
    ensures
        match global {
            Some(g) => rules_model(r@) == seq![(g.base(), g.lines())],
            None => rules_model(r@) == Seq::<(Seq<char>, Seq<char>)>::empty(),
        },
{
    let empty = ImmutableStack::new();
    proof {
        assert(rules_model(empty@) =~= Seq::<(Seq<char>, Seq<char>)>::empty());
    }
    match global {
        Some(g) => {
            let ghost gm = (g.base(), g.lines());
            let r = empty.push(g);
            proof {
                assert(rules_model(r@) =~= seq![gm]);
            }
            r
        },
        None => empty,
    }
}

/// Extend the stack with rule sets collected from ancestor directories,
/// handed closest-to-leaf first: they are pushed in reverse, so the
/// entry at index 0 ends nearest the tip and the root-most entry sits
/// deepest, and iteration still yields closer scopes first.
pub fn push_ancestors(stack: &ImmutableStack<RuleSet>, ancestors: Vec<RuleSet>) -> (r:
    ImmutableStack<RuleSet>)
    ensures
        rules_model(r@) == rules_model(ancestors@) + rules_model(stack@),
{
    let ghost all = ancestors@;
    let mut rest = ancestors;
    let mut r = stack.clone();
    loop
        invariant
            rules_model(all) + rules_model(stack@) == rules_model(rest@) + rules_model(r@),
        ensures
            rest@.len() == 0,
        decreases rest@.len(),
    {
        let ghost rest_before = rest@;
        match rest.pop() {
            Some(rs) => {
                let ghost r_before = r@;
                let ghost rm = (rs.base(), rs.lines());
                r = r.push(rs);
                proof {
                    assert(rules_model(rest_before) =~= rules_model(rest@) + seq![rm]);
                    assert(rules_model(r@) =~= seq![rm] + rules_model(r_before));
                    assert(rules_model(rest@) + rules_model(r@) =~= rules_model(rest_before)
                        + rules_model(r_before));
                }
            },
            None => {
                break ;
            },
        }
    }
    proof {
        assert(rules_model(rest@) =~= Seq::<(Seq<char>, Seq<char>)>::empty());
        assert(rules_model(rest@) + rules_model(r@) =~= rules_model(r@));
    }
    r
}

/// Law: inside a repository root the inherited ignore scope and any
/// inherited hiding are void — neither the walk nor the scan of such a
/// directory depends on them. Only the nuke stack (with the built-in
/// whitelist at its bottom) and the global tip reach inside.
pub proof fn lemma_repo_root_resets_scope(
    nm: RulesModel,
    m1: RulesModel,
    m2: RulesModel,
    g: RulesModel,
    dir_path: Seq<char>,
    es: Seq<FsNode>,
    inh1: bool,
    inh2: bool,
)
    requires
        is_repo_root(es),
    ensures
        walk_dir(nm, m1, g, dir_path, es) == walk_dir(nm, m2, g, dir_path, es),
        scan_dir(nm, m1, g, dir_path, es, inh1) == scan_dir(nm, m2, g, dir_path, es, inh2),
{
    assert(scoped_rules(m1, g, dir_path, es) == scoped_rules(m2, g, dir_path, es));
}

/// Law: an entry whose verdict is `Whitelisted` is neither reported nor
/// descended into — the walk of a directory holding it reports exactly
/// what the walk without that entry reports. With the built-in
/// whitelist on the nuke stack, this is what keeps `.git` and `.hg`
/// entries out of the report wherever no `.gitnuke` rule overrides
/// them.
pub proof fn lemma_whitelisted_entry_not_reported(
    nm2: RulesModel,
    m2: RulesModel,
    g: RulesModel,
    dir_path: Seq<char>,
    es: Seq<FsNode>,
    i: int,
)
    requires
        0 <= i < es.len(),
        combined_verdict(nm2, m2, child_path_of(dir_path, node_name(es[i])), node_is_dir(es[i]))
            == RuleMatch::Whitelisted,
    ensures
        walk_children(nm2, m2, g, dir_path, es) == walk_children(
            nm2,
            m2,
            g,
            dir_path,
            es.remove(i),
        ),
    decreases i,
{
    if i == 0 {
        assert(es.remove(0) =~= es.drop_first());
    } else {
        assert(es.drop_first()[i - 1] == es[i]);
        lemma_whitelisted_entry_not_reported(nm2, m2, g, dir_path, es.drop_first(), i - 1);
        assert(es.remove(i).first() == es.first());
        assert(es.remove(i).drop_first() =~= es.drop_first().remove(i - 1));
    }
}

/// Law: the same under the scan of a hidden subtree — a whitelisted
/// entry contributes no reported item (it only marks the subtree as
/// holding an exemption, so the subtree is not reported whole).
pub proof fn lemma_whitelisted_entry_not_scanned(
    nm2: RulesModel,
    m2: RulesModel,
    g: RulesModel,
    dir_path: Seq<char>,
    es: Seq<FsNode>,
    inh: bool,
    i: int,
)
    requires
        0 <= i < es.len(),
        combined_verdict(nm2, m2, child_path_of(dir_path, node_name(es[i])), node_is_dir(es[i]))
            == RuleMatch::Whitelisted,
    ensures
        scan_children(nm2, m2, g, dir_path, es, inh).1 == scan_children(
            nm2,
            m2,
            g,
            dir_path,
            es.remove(i),
            inh,
        ).1,
        scan_children(nm2, m2, g, dir_path, es, inh).0,
    decreases i,
{
    if i == 0 {
        assert(es.remove(0) =~= es.drop_first());
    } else {
        assert(es.drop_first()[i - 1] == es[i]);
        lemma_whitelisted_entry_not_scanned(nm2, m2, g, dir_path, es.drop_first(), inh, i - 1);
        assert(es.remove(i).first() == es.first());
        assert(es.remove(i).drop_first() =~= es.drop_first().remove(i - 1));
    }
}

/// Law: the walk is a pure function of the tree and the rules in scope —
/// walking an unchanged tree twice reports the same paths.
pub proof fn lemma_walk_deterministic(
    nm: RulesModel,
    m: RulesModel,
    g: RulesModel,
    dir_path: Seq<char>,
    es: Seq<FsNode>,
    first_run: Seq<Seq<char>>,
    second_run: Seq<Seq<char>>,
)
    requires
        first_run == walk_dir(nm, m, g, dir_path, es),
        second_run == walk_dir(nm, m, g, dir_path, es),
    ensures
        first_run == second_run,
{
}

} // verus!
