use elfdeps::parse_interp;

#[test]
fn test_parse_interp_path_is_memory_address() {
    let input = "linux-vdso.so.1 => (0x00007fdf495cd000)";
    assert!(parse_interp(input).is_empty());
}

#[test]
fn test_parse_interp_path_is_unavailable() {
    let input = "libpcre2-8.so.0 =>  (0x00007fdf49524000)";
    assert!(parse_interp(input).is_empty());
}

#[test]
fn test_parse_interp_path_is_available() {
    let input = "libpthread.so.0 => /lib64/libpthread.so.0 (0x00007f70f6c10000)";
    assert_eq!(
        parse_interp(input),
        vec![String::from("/lib64/libpthread.so.0")]
    );
}

#[test]
fn test_parse_interp_very_long_path() {
    let input = "libpcre2-8.so.0 => /nix/store/nalqwq0dpzqnp4nfv25370cb17q3wx4j-pcre2-10.44/lib/libpcre2-8.so.0 (0x00007fdf49524000)";
    assert_eq!(
        parse_interp(input),
        vec![String::from(
            "/nix/store/nalqwq0dpzqnp4nfv25370cb17q3wx4j-pcre2-10.44/lib/libpcre2-8.so.0"
        )]
    );
}

#[test]
fn test_parse_interp_many_paths() {
    let input = "        linux-vdso.so.1 =>  (0x00007fffd33f2000)
        libdl.so.2 => /lib64/libdl.so.2 (0x00007f70f7855000)
        librt.so.1 => /lib64/librt.so.1 (0x00007f70f764d000)
        libstdc++.so.6 => /lib64/libstdc++.so.6 (0x00007f70f7345000)
        libm.so.6 => /lib64/libm.so.6 (0x00007f70f7043000)
        libgcc_s.so.1 => /lib64/libgcc_s.so.1 (0x00007f70f6e2d000)
        libpthread.so.0 => /lib64/libpthread.so.0 (0x00007f70f6c10000)
        libc.so.6 => /lib64/libc.so.6 (0x00007f70f684f000)
        /lib64/ld-linux-x86-64.so.2 (0x00007f70f7a61000)
";
    assert_eq!(
        parse_interp(input),
        vec![
            String::from("/lib64/libdl.so.2"),
            String::from("/lib64/librt.so.1"),
            String::from("/lib64/libstdc++.so.6"),
            String::from("/lib64/libm.so.6"),
            String::from("/lib64/libgcc_s.so.1"),
            String::from("/lib64/libpthread.so.0"),
            String::from("/lib64/libc.so.6"),
        ]
    );
}

#[test]
fn vdso_line_names_no_library() {
    let input = "linux-vdso.so.1 =>  (0x00007fffd33f2000)";
    assert!(parse_interp(input).is_empty());
}

#[test]
fn line_whose_path_is_its_name_is_skipped() {
    assert!(parse_interp("/lib/a.so => /lib/a.so (0x1000)").is_empty());
}

#[test]
fn line_without_arrow_is_skipped() {
    assert!(parse_interp("libc.so.6 -> /lib/libc.so.6 (0x1000)").is_empty());
    assert!(parse_interp("libc.so.6 =>> /lib/libc.so.6 (0x1000)").is_empty());
}

#[test]
fn line_with_other_field_count_is_skipped() {
    assert!(parse_interp("libc.so.6 => /lib/libc.so.6").is_empty());
    assert!(parse_interp("libc.so.6 => /lib/libc.so.6 (0x1000) extra").is_empty());
    assert!(parse_interp("").is_empty());
    assert!(parse_interp("\n\n").is_empty());
}

#[test]
fn tabs_and_carriage_returns_are_blanks() {
    let input = "\tlibm.so.6\t=>\t/lib/libm.so.6\t(0x1000)\r\nlibc.so.6 => /lib/libc.so.6 (0x2000)\r\n";
    assert_eq!(
        parse_interp(input),
        vec![String::from("/lib/libm.so.6"), String::from("/lib/libc.so.6")]
    );
}
