use grafted::deps::{DependencyWalk, WalkStep};
use grafted::linker::Linker;
use grafted::macho::{DylibDep, MachOBinary};

fn image(path: &str, deps: &[&str]) -> MachOBinary {
    MachOBinary {
        path: path.to_string(), file_type: 2, cpu_type: 0x0100_0007, entry_point: 0, entry_is_offset: true,
        segments: vec![], dylib_deps: deps.iter().map(|d| DylibDep { name: d.to_string(), current_version: 0, compat_version: 0 }).collect(),
        rpaths: vec![], chained_fixups: None, exports_trie: None, data: vec![], slide: 0,
    }
}

#[test]
fn walk_loads_each_library_once() {
    let mut linker = Linker::new();
    linker.add_override("/usr/lib/libA.dylib".to_string(), "/opt/libA.so".to_string());
    linker.add_override("/usr/lib/libB.dylib".to_string(), "/opt/libB.so".to_string());
    linker.register_symbol("/usr/lib/libSystem.B.dylib".to_string(), "_write".to_string(), 1);
    let main = image("/bin/app", &["/usr/lib/libSystem.B.dylib", "/usr/lib/libA.dylib"]);
    let mut walk = DependencyWalk::new(&main);
    let mut loads = Vec::new();
    let mut skipped = Vec::new();
    loop {
        match linker.next_dependency(&mut walk) {
            WalkStep::Finished => break,
            WalkStep::Skipped(n) => skipped.push(n),
            WalkStep::NotFound(n) => panic!("not found: {n}"),
            WalkStep::Load { name, linux_path } => {
                loads.push(name.clone());
                let lib = if name == "/usr/lib/libA.dylib" {
                    image(&linux_path, &["/usr/lib/libB.dylib", "/usr/lib/libA.dylib"])
                } else {
                    image(&linux_path, &["/usr/lib/libA.dylib"])
                };
                linker.finish_dependency(&mut walk, name, linux_path, Some(lib));
            }
        }
    }
    assert_eq!(loads, vec!["/usr/lib/libA.dylib".to_string(), "/usr/lib/libB.dylib".to_string()]);
    assert!(skipped.contains(&"/usr/lib/libSystem.B.dylib".to_string()));
    assert!(linker.loaded_binary(&"/usr/lib/libA.dylib".to_string()).is_some());
    assert_eq!(linker.loaded_binary(&"/usr/lib/libB.dylib".to_string()).unwrap().path, "/opt/libB.so");
    // neither library has a __TEXT segment at a non-zero address
    assert!(linker.libraries_to_initialize().is_empty());
}

#[test]
fn missing_library_is_settled_as_not_found() {
    let linker = Linker::new();
    let main = image("/bin/app", &["/nonexistent/libZ.dylib"]);
    let mut walk = DependencyWalk::new(&main);
    let mut steps = Vec::new();
    loop {
        match linker.next_dependency(&mut walk) {
            WalkStep::Finished => break,
            other => steps.push(format!("{other:?}")),
        }
    }
    assert_eq!(steps, vec!["NotFound(\"/nonexistent/libZ.dylib\")".to_string()]);
}

#[test]
fn failed_load_is_not_retried() {
    let mut linker = Linker::new();
    linker.add_override("/usr/lib/libA.dylib".to_string(), "/opt/libA.so".to_string());
    let main = image("/bin/app", &["/usr/lib/libA.dylib", "/usr/lib/libA.dylib"]);
    let mut walk = DependencyWalk::new(&main);
    let mut loads = 0;
    loop {
        match linker.next_dependency(&mut walk) {
            WalkStep::Finished => break,
            WalkStep::Load { name, linux_path } => {
                loads += 1;
                linker.finish_dependency(&mut walk, name, linux_path, None);
            }
            _ => {}
        }
    }
    assert_eq!(loads, 1);
}
