use nestcli::addr2line::{Candidate, Registry, SymbolicationPlan};
use nestcli::errors::DebugError;
use nestcli::scan::ScanOutcome;

fn arm_candidate() -> Candidate {
    let registry = Registry::standard();
    registry.candidates.into_iter().next().unwrap()
}

#[test]
fn argv_is_exactly_flags_args_target_addresses() {
    let candidate = arm_candidate();
    let target = "game.elf".to_string();
    let addresses = vec!["0x100".to_string(), "0x200".to_string()];
    let argv = candidate.build_argv(&target, &addresses);
    assert_eq!(argv, vec!["-aipfCe", "arm", "-e", "game.elf", "0x100", "0x200"]);
}

#[test]
fn argv_keeps_address_order() {
    let candidate = arm_candidate();
    let target = "t".to_string();
    let addresses = vec!["0x2".to_string(), "0x1".to_string(), "0x3".to_string()];
    let argv = candidate.build_argv(&target, &addresses);
    assert_eq!(argv, vec!["-aipfCe", "arm", "-e", "t", "0x2", "0x1", "0x3"]);
}

#[test]
fn empty_address_list_is_rejected_before_any_spawn() {
    let candidate = arm_candidate();
    let target = "game.elf".to_string();
    let addresses: Vec<String> = Vec::new();
    // An accepted plan is the only way to an argument list, so a rejected
    // request spawns nothing.
    match candidate.invoke_plan(&target, true, &addresses) {
        Err(DebugError::NoAddresses) => {},
        other => panic!("expected NoAddresses, got {:?}", other),
    }
}

#[test]
fn missing_target_is_rejected_before_any_spawn() {
    let candidate = arm_candidate();
    let target = "does-not-exist.elf".to_string();
    let addresses = vec!["0x100".to_string()];
    match candidate.invoke_plan(&target, false, &addresses) {
        Err(DebugError::InvalidTarget { path }) => assert_eq!(path, "does-not-exist.elf"),
        other => panic!("expected InvalidTarget, got {:?}", other),
    }
}

#[test]
fn missing_target_outranks_empty_addresses() {
    let candidate = arm_candidate();
    let target = "does-not-exist.elf".to_string();
    let addresses: Vec<String> = Vec::new();
    match candidate.invoke_plan(&target, false, &addresses) {
        Err(DebugError::InvalidTarget { .. }) => {},
        other => panic!("expected InvalidTarget, got {:?}", other),
    }
}

#[test]
fn valid_request_yields_the_argv() {
    let candidate = arm_candidate();
    let target = "game.elf".to_string();
    let addresses = vec!["0xdead".to_string()];
    let argv = candidate.invoke_plan(&target, true, &addresses).unwrap();
    assert_eq!(argv, vec!["-aipfCe", "arm", "-e", "game.elf", "0xdead"]);
}

#[test]
fn dispatch_reports_no_toolchain_without_running_anything() {
    let registry = Registry::standard();
    let root = None;
    let target = "game.elf".to_string();
    let addresses = vec!["0x100".to_string()];
    match registry.dispatch(ScanOutcome::NoMatch, &root, &target, true, &addresses) {
        Ok(SymbolicationPlan::NoToolchain) => {},
        other => panic!("expected NoToolchain, got {:?}", other),
    }
}

#[test]
fn dispatch_propagates_the_resolver_error_first() {
    let registry = Registry::standard();
    let root = Some("/nonexistent-root".to_string());
    let target = "missing.elf".to_string();
    let addresses: Vec<String> = Vec::new();
    // Resolution runs before the invocation checks, so its failure wins
    // even though the target is missing and no address was given.
    let outcome = ScanOutcome::Found { index: 0, offset: 0 };
    match registry.dispatch(outcome, &root, &target, false, &addresses) {
        Err(DebugError::ToolchainNotFound { name, expected_location }) => {
            assert_eq!(name, "arm-none-eabi-addr2line");
            assert_eq!(
                expected_location,
                "/nonexistent-root/devkitARM/bin/arm-none-eabi-addr2line"
            );
        },
        other => panic!("expected ToolchainNotFound, got {:?}", other),
    }
}

#[test]
fn resolver_joins_root_subpath_and_binary() {
    let candidate = Candidate {
        binary: "tool-addr2line".to_string(),
        magic: b"m".to_vec(),
        args: Vec::new(),
        search_path: "toolchain/bin".to_string(),
        device: "Test Console".to_string(),
    };
    let root = Some("D".to_string());
    assert_eq!(candidate.resolved_name(&root), "D/toolchain/bin/tool-addr2line");
}

#[test]
fn resolver_falls_back_to_the_bare_name_without_a_root() {
    let candidate = arm_candidate();
    assert_eq!(candidate.resolved_name(&None), "arm-none-eabi-addr2line");
}

#[test]
fn failed_lookup_names_the_expected_location() {
    let candidate = arm_candidate();
    match candidate.resolution_outcome("D/devkitARM/bin/arm-none-eabi-addr2line".to_string(), false)
    {
        Err(DebugError::ToolchainNotFound { name, expected_location }) => {
            assert_eq!(name, "arm-none-eabi-addr2line");
            assert_eq!(expected_location, "D/devkitARM/bin/arm-none-eabi-addr2line");
        },
        other => panic!("expected ToolchainNotFound, got {:?}", other),
    }
}

#[test]
fn resolve_reports_a_missing_executable() {
    let candidate = Candidate {
        binary: "surely-absent-addr2line-binary".to_string(),
        magic: b"m".to_vec(),
        args: Vec::new(),
        search_path: "no/such/dir".to_string(),
        device: "Test Console".to_string(),
    };
    let root = Some("/nonexistent-root".to_string());
    match candidate.resolve(&root) {
        Err(DebugError::ToolchainNotFound { name, expected_location }) => {
            assert_eq!(name, "surely-absent-addr2line-binary");
            assert_eq!(
                expected_location,
                "/nonexistent-root/no/such/dir/surely-absent-addr2line-binary"
            );
        },
        other => panic!("expected ToolchainNotFound, got {:?}", other),
    }
}
