use gitignore_nuke::immutable_stack::ImmutableStack;
use gitignore_nuke::rules::RuleMatch;
use gitignore_nuke::job_system::run_recursive_job;
use gitignore_nuke::rules::RuleSet;
use gitignore_nuke::sizes::{directory_sizes, find_node, sum_by_group, summarize, SizeJob, SizeTask};
use gitignore_nuke::walker::{global_stack, push_ancestors, walk_tree, whitelist_stack, FsNode};

fn file(name: &str, size: u64, text: &str) -> FsNode {
    FsNode::File { name: name.to_string(), size, text: text.to_string() }
}

fn dir(name: &str, entries: Vec<FsNode>) -> FsNode {
    FsNode::Dir { name: name.to_string(), entries }
}

fn walk(root: &str, entries: &Vec<FsNode>) -> Vec<String> {
    let root_path = root.to_string();
    let nukes: ImmutableStack<RuleSet> =
        whitelist_stack(&root_path).expect("whitelist rules compile");
    let rules = global_stack(None);
    walk_tree(&nukes, &rules, &rules, &root_path, entries)
}

fn sorted(mut v: Vec<String>) -> Vec<String> {
    v.sort();
    v
}

#[test]
fn plain_ignore_rule_round_trip() {
    let entries = vec![
        file("a.log", 10, ""),
        file("b.txt", 5, ""),
        file(".gitignore", 1, "*.log"),
    ];
    let out = walk("root", &entries);
    assert_eq!(sorted(out), vec!["root/a.log".to_string()]);
}

#[test]
fn whitelist_under_ignored_directory() {
    let entries = vec![
        file(".gitignore", 1, "build/\n!build/keep.me"),
        dir("build", vec![file("keep.me", 1, ""), file("drop.o", 2, "")]),
    ];
    let out = walk("root", &entries);
    assert!(out.contains(&"root/build/drop.o".to_string()));
    assert!(!out.contains(&"root/build/keep.me".to_string()));
    assert!(!out.contains(&"root/build".to_string()));
}

#[test]
fn nested_scope_leaf_wins() {
    let entries = vec![
        file(".gitignore", 1, "*.tmp"),
        dir(
            "sub",
            vec![file(".gitignore", 1, "!a.tmp"), file("a.tmp", 1, ""), file("b.tmp", 1, "")],
        ),
        file("c.tmp", 1, ""),
    ];
    let out = walk("root", &entries);
    assert!(out.contains(&"root/c.tmp".to_string()));
    assert!(out.contains(&"root/sub/b.tmp".to_string()));
    assert!(!out.contains(&"root/sub/a.tmp".to_string()));
}

#[test]
fn repository_boundary_resets_scope() {
    let entries = vec![
        file(".gitignore", 1, "*"),
        dir(
            "inner",
            vec![dir(".git", vec![file("HEAD", 1, "")]), file("keep.txt", 3, "")],
        ),
    ];
    let out = walk("outer", &entries);
    assert!(!out.contains(&"outer/inner/keep.txt".to_string()));
    assert!(!out.contains(&"outer/inner/.git".to_string()));
    assert!(!out.contains(&"outer/inner/.git/HEAD".to_string()));
}

#[test]
fn nuke_file_outranks_ignore_file() {
    let entries = vec![
        file(".gitignore", 1, "*.log"),
        file(".gitnuke", 1, "!keep.log"),
        file("keep.log", 1, ""),
        file("drop.log", 1, ""),
    ];
    let out = walk("root", &entries);
    assert!(out.contains(&"root/drop.log".to_string()));
    assert!(!out.contains(&"root/keep.log".to_string()));
}

#[test]
fn whitelisted_directory_is_kept_whole() {
    let entries = vec![
        file(".gitignore", 1, "*.log\n!keepdir/"),
        dir("keepdir", vec![file("inner.log", 4, "")]),
        file("outer.log", 2, ""),
    ];
    let out = walk("root", &entries);
    assert!(out.contains(&"root/outer.log".to_string()));
    assert!(!out.contains(&"root/keepdir".to_string()));
    assert!(!out.contains(&"root/keepdir/inner.log".to_string()));
}

#[test]
fn size_aggregation_whole_directory() {
    let entries = vec![
        dir("ignored", vec![file("a", 100, ""), dir("sub", vec![file("b", 50, "")])]),
        file(".gitignore", 1, "ignored/"),
    ];
    let root_path = "root".to_string();
    let out = walk("root", &entries);
    assert_eq!(out, vec!["root/ignored".to_string()]);

    let totals = directory_sizes(&entries, &root_path, &out);
    assert_eq!(totals, vec![150]);

    let summary = summarize(out, totals, 0);
    assert_eq!(summary, vec![("root/ignored".to_string(), 150)]);
}

#[test]
fn size_job_emissions_add_up() {
    let entries = vec![
        dir("ignored", vec![file("a", 100, ""), dir("sub", vec![file("b", 50, "")])]),
        file(".gitignore", 1, "ignored/"),
    ];
    let root_path = "root".to_string();
    let target = "root/ignored".to_string();
    let node = find_node(&entries, &root_path, &target).expect("the reported path is in the tree");
    let seeds = vec![SizeTask { group: 0, node: node.clone() }];
    let emissions = run_recursive_job(&SizeJob {}, seeds);
    let totals = sum_by_group(1, &emissions);
    assert_eq!(totals, vec![150]);
}

#[test]
fn minimum_size_filters_and_orders() {
    let paths = vec!["root/a".to_string(), "root/b".to_string(), "root/c".to_string()];
    let totals = vec![500, 20, 80];
    let summary = summarize(paths, totals, 50);
    assert_eq!(
        summary,
        vec![("root/c".to_string(), 80), ("root/a".to_string(), 500)]
    );
}

#[test]
fn missing_path_counts_nothing() {
    let entries = vec![file("a", 10, "")];
    let root_path = "root".to_string();
    let totals = directory_sizes(&entries, &root_path, &vec!["root/absent".to_string()]);
    assert_eq!(totals, vec![0]);
}

#[test]
fn global_rules_survive_a_repository_boundary() {
    // a rule playing the role of the user's global excludes, and one
    // collected from an ancestor directory
    let root_path = "root".to_string();
    let nukes = whitelist_stack(&root_path).expect("whitelist rules compile");
    let global_rule = RuleSet::compile("root", "secret/").expect("global rule compiles");
    let global_tip = global_stack(Some(global_rule));
    let ancestor_rule = RuleSet::compile("anc", "*.bak").expect("ancestor rule compiles");
    let rules = push_ancestors(&global_tip, vec![ancestor_rule]);

    let entries = vec![
        file("old.bak", 2, ""),
        dir("secret", vec![file("s", 1, "")]),
        dir(
            "repo",
            vec![
                dir(".git", vec![file("HEAD", 1, "")]),
                file("inner.bak", 3, ""),
                dir("secret", vec![file("t", 1, "")]),
            ],
        ),
    ];
    let out = walk_tree(&nukes, &rules, &global_tip, &root_path, &entries);

    // outside the nested repository both rules apply
    assert!(out.contains(&"root/old.bak".to_string()));
    assert!(out.contains(&"root/secret".to_string()));
    // inside it the ancestor rule is gone, the global rule stays
    assert!(!out.contains(&"root/repo/inner.bak".to_string()));
    assert!(out.contains(&"root/repo/secret".to_string()));
}

#[test]
fn verdict_carries_its_origin() {
    let rs = RuleSet::compile("root", "*.log").expect("rule compiles");
    let (m, origin) = rs.matched_with_origin("root/a.log", false);
    assert_eq!(m, RuleMatch::Ignored);
    let o = origin.expect("a deciding glob");
    assert_eq!(o.glob, "*.log");
    assert_eq!(o.source, "");
    let (m2, origin2) = rs.matched_with_origin("root/b.txt", false);
    assert_eq!(m2, RuleMatch::Unmatched);
    assert!(origin2.is_none());
}

#[test]
fn metadata_survives_a_catch_all_rule() {
    // even a repository's own catch-all ignore rule cannot put .git up
    // for deletion: the whitelist rides on the nuke stack, above every
    // .gitignore rule
    let entries = vec![
        file(".gitignore", 1, "*"),
        dir(".git", vec![file("HEAD", 1, "")]),
        file("data.txt", 3, ""),
    ];
    let out = walk("root", &entries);
    assert!(out.contains(&"root/data.txt".to_string()));
    assert!(!out.contains(&"root/.git".to_string()));
    assert!(!out.contains(&"root/.git/HEAD".to_string()));
    assert!(!out.contains(&"root/.gitignore".to_string()));
}

#[test]
fn empty_directory_reports_nothing() {
    let entries: Vec<FsNode> = vec![];
    let out = walk("root", &entries);
    assert!(out.is_empty());
}

#[test]
fn equal_sizes_all_survive_the_ordering() {
    let paths = vec!["root/a".to_string(), "root/b".to_string(), "root/c".to_string()];
    let totals = vec![70, u64::MAX, 70];
    let summary = summarize(paths, totals, 0);
    assert_eq!(summary.len(), 3);
    assert_eq!(summary[0].1, 70);
    assert_eq!(summary[1].1, 70);
    assert_eq!(summary[2], ("root/b".to_string(), u64::MAX));
    let names: Vec<&str> = summary.iter().map(|p| p.0.as_str()).collect();
    assert!(names.contains(&"root/a"));
    assert!(names.contains(&"root/c"));
}

#[test]
fn walking_twice_reports_the_same_paths() {
    let entries = vec![
        file(".gitignore", 1, "*.tmp"),
        dir(
            "sub",
            vec![file(".gitignore", 1, "!a.tmp"), file("a.tmp", 1, ""), file("b.tmp", 1, "")],
        ),
        file("c.tmp", 1, ""),
    ];
    let first = sorted(walk("root", &entries));
    let second = sorted(walk("root", &entries));
    assert_eq!(first, second);
}
