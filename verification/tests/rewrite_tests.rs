use clang_shim::rewrite::rewrite;
use clang_shim::rewrite::split_riscv_target;

fn strs(v: &[&str]) -> Vec<String> {
    v.iter().map(|s| s.to_string()).collect()
}

#[test]
fn ignored_nostartfiles_is_dropped() {
    assert_eq!(rewrite(&strs(&["-nostartfiles"])), strs(&[]));
}

#[test]
fn ignored_nonnull_compare_is_dropped() {
    assert_eq!(rewrite(&strs(&["-Wno-nonnull-compare"])), strs(&[]));
}

#[test]
fn ignored_dangling_pointer_is_dropped() {
    assert_eq!(rewrite(&strs(&["-Wno-dangling-pointer"])), strs(&[]));
}

#[test]
fn plain_token_passes_through() {
    assert_eq!(rewrite(&strs(&["-O2"])), strs(&["-O2"]));
    assert_eq!(rewrite(&strs(&["foo.c"])), strs(&["foo.c"]));
    assert_eq!(rewrite(&strs(&[""])), strs(&[""]));
}

#[test]
fn riscv64_target_with_extensions_is_split() {
    assert_eq!(
        rewrite(&strs(&["--target=riscv64imac_zba_zbb_zbc_zbs-unknown-ckb-elf"])),
        strs(&["--target=riscv64-unknown-ckb-elf", "-march=rv64imac_zba_zbb_zbc_zbs"])
    );
}

#[test]
fn riscv32_target_with_extensions_is_split() {
    assert_eq!(
        rewrite(&strs(&["--target=riscv32im-unknown-elf"])),
        strs(&["--target=riscv32-unknown-elf", "-march=rv32im"])
    );
}

#[test]
fn ignored_tokens_are_dropped_among_others() {
    assert_eq!(rewrite(&strs(&["-nostartfiles", "-O2", "foo.c"])), strs(&["-O2", "foo.c"]));
}

#[test]
fn order_is_preserved_across_kinds() {
    assert_eq!(
        rewrite(&strs(&["-c", "--target=riscv64gc-linux", "-Wno-dangling-pointer", "x.c"])),
        strs(&["-c", "--target=riscv64-linux", "-march=rv64gc", "x.c"])
    );
}

#[test]
fn target_without_extension_suffix_passes_through() {
    // the architecture field is just the width: nothing to split off
    assert_eq!(rewrite(&strs(&["--target=riscv64-unknown-elf"])), strs(&["--target=riscv64-unknown-elf"]));
}

#[test]
fn target_without_remainder_passes_through() {
    // no hyphen after the extension suffix
    assert_eq!(rewrite(&strs(&["--target=riscv64imac"])), strs(&["--target=riscv64imac"]));
    // a hyphen with nothing after it
    assert_eq!(rewrite(&strs(&["--target=riscv64imac-"])), strs(&["--target=riscv64imac-"]));
}

#[test]
fn target_with_other_width_passes_through() {
    assert_eq!(rewrite(&strs(&["--target=riscv128imac-elf"])), strs(&["--target=riscv128imac-elf"]));
    assert_eq!(rewrite(&strs(&["--target=riscv6imac-elf"])), strs(&["--target=riscv6imac-elf"]));
}

#[test]
fn pattern_must_start_the_token() {
    assert_eq!(
        rewrite(&strs(&["x--target=riscv64imac-elf"])),
        strs(&["x--target=riscv64imac-elf"])
    );
}

#[test]
fn split_reports_the_two_tokens() {
    let r = split_riscv_target("--target=riscv64imac-unknown-ckb-elf");
    assert_eq!(
        r,
        Some(("--target=riscv64-unknown-ckb-elf".to_string(), "-march=rv64imac".to_string()))
    );
}

#[test]
fn split_rejects_non_matching_tokens() {
    assert_eq!(split_riscv_target("-O2"), None);
    assert_eq!(split_riscv_target("--target=armv7-linux"), None);
    assert_eq!(split_riscv_target("--target=riscv64-elf"), None);
}

#[test]
fn empty_argument_list_rewrites_to_empty() {
    assert_eq!(rewrite(&strs(&[])), strs(&[]));
}
