use ea_compiler::error::CompileError;
use ea_compiler::incremental_compilation::{FileProbe, IncrementalCompiler, IncrementalStats};
use ea_compiler::name_map::NameMap;

fn probe(modified: u64, contents: &str) -> FileProbe {
    FileProbe { modified: Ok(modified), contents: Ok(contents.to_string()) }
}

#[test]
fn test_incremental_compiler_creation() {
    let compiler = IncrementalCompiler::<()>::new();
    assert_eq!(compiler.unit_count(), 0);
    assert_eq!(compiler.get_stats().total_units, 0);
}

#[test]
fn test_dependency_tracking() {
    let mut compiler = IncrementalCompiler::<()>::new();

    let file_a = "a.ea".to_string();
    let file_b = "b.ea".to_string();
    let file_c = "c.ea".to_string();

    compiler.add_dependency(file_a.clone(), file_b.clone());
    compiler.add_dependency(file_b.clone(), file_c.clone());

    let order = compiler
        .get_compilation_order(&[file_a.clone(), file_b.clone(), file_c.clone()])
        .unwrap();

    assert_eq!(order.len(), 3);

    let c_pos = order.iter().position(|x| x == &file_c).unwrap();
    let b_pos = order.iter().position(|x| x == &file_b).unwrap();
    let a_pos = order.iter().position(|x| x == &file_a).unwrap();

    assert!(c_pos < b_pos);
    assert!(b_pos < a_pos);
}

#[test]
fn test_circular_dependency_detection() {
    let mut compiler = IncrementalCompiler::<()>::new();

    let file_a = "a.ea".to_string();
    let file_b = "b.ea".to_string();

    compiler.add_dependency(file_a.clone(), file_b.clone());
    compiler.add_dependency(file_b.clone(), file_a.clone());

    let result = compiler.get_compilation_order(&[file_a.clone(), file_b.clone()]);
    assert!(result.is_err());
}

#[test]
fn cycle_error_is_counted_and_described() {
    let mut compiler = IncrementalCompiler::<()>::new();
    compiler.add_dependency("x.ea".to_string(), "x.ea".to_string());
    let result = compiler.get_compilation_order(&["x.ea".to_string()]);
    match result {
        Err(CompileError::CodeGenError { message, position }) => {
            assert_eq!(message, "Circular dependency detected in compilation units");
            assert!(position.is_none());
        }
        _ => panic!("expected a cycle error"),
    }
    assert_eq!(compiler.get_stats().dependency_cycles, 1);
}

#[test]
fn duplicate_units_are_ordered_once() {
    let mut compiler = IncrementalCompiler::<()>::new();
    let result = compiler.get_compilation_order(&["a.ea".to_string(), "a.ea".to_string()]);
    assert_eq!(result.unwrap(), vec!["a.ea".to_string()]);
    assert_eq!(compiler.get_stats().dependency_cycles, 0);
}

#[test]
fn empty_and_unrelated_orders() {
    let mut compiler = IncrementalCompiler::<()>::new();
    assert_eq!(compiler.get_compilation_order(&[]).unwrap().len(), 0);
    compiler.add_dependency("main.ea".to_string(), "outside.ea".to_string());
    let order = compiler
        .get_compilation_order(&["main.ea".to_string(), "lib.ea".to_string()])
        .unwrap();
    assert_eq!(order, vec!["main.ea".to_string(), "lib.ea".to_string()]);
}

#[test]
fn diamond_dependencies_are_ordered() {
    let mut compiler = IncrementalCompiler::<()>::new();
    compiler.add_dependency("top.ea".to_string(), "left.ea".to_string());
    compiler.add_dependency("top.ea".to_string(), "right.ea".to_string());
    compiler.add_dependency("left.ea".to_string(), "base.ea".to_string());
    compiler.add_dependency("right.ea".to_string(), "base.ea".to_string());
    compiler.add_dependency("right.ea".to_string(), "base.ea".to_string());
    let units = vec![
        "top.ea".to_string(),
        "left.ea".to_string(),
        "right.ea".to_string(),
        "base.ea".to_string(),
    ];
    let order = compiler.get_compilation_order(&units).unwrap();
    let pos = |n: &str| order.iter().position(|x| x == n).unwrap();
    assert!(pos("base.ea") < pos("left.ea"));
    assert!(pos("base.ea") < pos("right.ea"));
    assert!(pos("left.ea") < pos("top.ea"));
    assert!(pos("right.ea") < pos("top.ea"));
}

#[test]
fn recorded_units_are_reused_until_changed() {
    let mut compiler = IncrementalCompiler::<u32>::new();
    let p = probe(100, "func main() { print(42); }");
    compiler.add_unit("main.ea".to_string(), vec![], 7, 1_000, &p, 5).unwrap();
    assert_eq!(compiler.unit_count(), 1);
    assert_eq!(compiler.get_stats().total_units, 1);

    let (ast, ctx) = compiler.get_cached_result("main.ea").unwrap();
    assert!(ast.is_empty());
    assert_eq!(*ctx, 7);

    let mut probes = NameMap::new();
    probes.insert("main.ea".to_string(), probe(100, "func main() { print(42); }"));
    assert_eq!(compiler.needs_recompilation("main.ea", &probes).unwrap(), false);
    assert!(compiler.get_units_needing_recompilation(&probes).unwrap().is_empty());

    // Same time stamp, new contents: the hash tells.
    let mut changed = NameMap::new();
    changed.insert("main.ea".to_string(), probe(100, "func main() { print(43); }"));
    assert_eq!(compiler.needs_recompilation("main.ea", &changed).unwrap(), true);
    // A new time stamp.
    let mut touched = NameMap::new();
    touched.insert("main.ea".to_string(), probe(101, "func main() { print(42); }"));
    assert_eq!(compiler.needs_recompilation("main.ea", &touched).unwrap(), true);
    // Untracked files always need compiling.
    assert_eq!(compiler.needs_recompilation("other.ea", &probes).unwrap(), true);

    compiler.mark_for_recompilation("main.ea");
    assert!(compiler.get_cached_result("main.ea").is_none());

    compiler.clear_cache();
    assert_eq!(compiler.unit_count(), 0);
    assert_eq!(*compiler.get_stats(), IncrementalStats::default());
}

#[test]
fn dependency_changes_propagate() {
    let mut compiler = IncrementalCompiler::<()>::new();
    let pa = probe(1, "a");
    let pb = probe(2, "b");
    compiler.add_unit("a.ea".to_string(), vec![], (), 0, &pa, 0).unwrap();
    compiler.add_unit("b.ea".to_string(), vec![], (), 0, &pb, 0).unwrap();
    compiler.add_dependency("a.ea".to_string(), "b.ea".to_string());
    compiler.add_dependency("b.ea".to_string(), "a.ea".to_string());

    let mut same = NameMap::new();
    same.insert("a.ea".to_string(), probe(1, "a"));
    same.insert("b.ea".to_string(), probe(2, "b"));
    // A cycle of unchanged units needs nothing.
    assert_eq!(compiler.needs_recompilation("a.ea", &same).unwrap(), false);

    let mut b_changed = NameMap::new();
    b_changed.insert("a.ea".to_string(), probe(1, "a"));
    b_changed.insert("b.ea".to_string(), probe(3, "b"));
    assert_eq!(compiler.needs_recompilation("a.ea", &b_changed).unwrap(), true);
    assert_eq!(
        compiler.get_units_needing_recompilation(&b_changed).unwrap(),
        vec!["a.ea".to_string(), "b.ea".to_string()]
    );
}

#[test]
fn unreadable_files_are_reported() {
    let mut compiler = IncrementalCompiler::<()>::new();
    let bad = FileProbe { modified: Err("No such file".to_string()), contents: Ok(String::new()) };
    let r = compiler.add_unit("gone.ea".to_string(), vec![], (), 0, &bad, 0);
    match r {
        Err(CompileError::CodeGenError { message, .. }) => {
            assert_eq!(message, "Failed to get metadata for gone.ea: No such file");
        }
        _ => panic!("expected an error"),
    }
    assert_eq!(compiler.unit_count(), 0);

    let good = probe(1, "x");
    compiler.add_unit("x.ea".to_string(), vec![], (), 0, &good, 0).unwrap();
    let mut probes = NameMap::new();
    probes.insert(
        "x.ea".to_string(),
        FileProbe { modified: Ok(1), contents: Err("denied".to_string()) },
    );
    match compiler.needs_recompilation("x.ea", &probes) {
        Err(CompileError::CodeGenError { message, .. }) => {
            assert_eq!(message, "Failed to read file x.ea: denied");
        }
        _ => panic!("expected an error"),
    }
}

#[test]
fn test_file_change_detection() {
    let file_path = "test.ea";
    let first = probe(100, "func main() { print(42); }\n");

    let mut compiler = IncrementalCompiler::<()>::new();

    // First check - file should need compilation
    assert!(compiler.has_file_changed(file_path, &first).unwrap());

    // Add unit
    compiler.add_unit(file_path.to_string(), vec![], (), 100_000_000, &first, 0).unwrap();

    // Should not need recompilation immediately
    assert!(!compiler.has_file_changed(file_path, &first).unwrap());

    // Modify file: a later time stamp and new contents
    let second = probe(110, "func main() { print(43); }\n");

    // Should need recompilation now
    assert!(compiler.has_file_changed(file_path, &second).unwrap());
}

#[test]
fn recorded_hash_is_compared() {
    let mut compiler = IncrementalCompiler::<()>::new();
    compiler.record_unit("m.ea".to_string(), Vec::new(), (), 5, 77, 10, 20);
    assert_eq!(compiler.unit_count(), 1);
    assert_eq!(compiler.get_stats().total_units, 1);
    assert!(!compiler.content_hash_differs("m.ea", 77));
    assert!(compiler.content_hash_differs("m.ea", 78));
    assert!(!compiler.content_hash_differs("other.ea", 78));
    assert!(compiler.get_cached_result("m.ea").is_some());
}

#[test]
fn new_and_cleared_compilers_need_nothing() {
    let mut compiler = IncrementalCompiler::<()>::new();
    let probes: NameMap<FileProbe> = NameMap::new();
    assert!(compiler.get_units_needing_recompilation(&probes).unwrap().is_empty());
    assert_eq!(compiler.get_stats().dependency_cycles, 0);
    compiler.add_dependency("a.ea".to_string(), "b.ea".to_string());
    compiler.clear_cache();
    assert_eq!(compiler.unit_count(), 0);
    assert!(compiler.get_units_needing_recompilation(&probes).unwrap().is_empty());
    let order = compiler
        .get_compilation_order(&["a.ea".to_string(), "b.ea".to_string()])
        .unwrap();
    assert_eq!(order, vec!["a.ea".to_string(), "b.ea".to_string()]);
}
