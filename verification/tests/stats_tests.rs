use ibexgit_core::stats::parse_stats_log;

#[test]
fn parse_two_records() {
    // 与真实输出一致：每条记录末尾有 \n。
    let raw = "\x1e张三\x1fz@x.com\x1f1725312000\n\x1e李四\x1fl@x.com\x1f1725225600\n";
    let out = parse_stats_log(raw);
    assert_eq!(out.len(), 2);
    assert_eq!(out[0].name, "张三");
    assert_eq!(out[0].email, "z@x.com");
    assert_eq!(out[0].ts, 1725312000);
    assert_eq!(out[1].email, "l@x.com");
}

#[test]
fn parse_skips_truncated_tail_and_leading_empty() {
    let raw = "\x1ea\x1fa@x.com\x1f100\x1eb\x1fb@x.com\x1fnot-a-number";
    assert_eq!(parse_stats_log(raw).len(), 1);
    assert_eq!(parse_stats_log("").len(), 0);
}

#[test]
fn parse_tolerates_empty_author_fields() {
    let raw = "\x1e\x1f\x1f42";
    let out = parse_stats_log(raw);
    assert_eq!(out.len(), 1);
    assert_eq!(out[0].name, "");
    assert_eq!(out[0].email, "");
    assert_eq!(out[0].ts, 42);
}

