use playprobe::classify::{classify_response, ProbeOutcome};
use playprobe::driver::{ep_list, get_server_list};
use playprobe::report::{
    format_progress, new_areas_result, record_success, render_header, render_row, AreaResult,
};

#[test]
fn success_code_zero_is_a_success() {
    let r = classify_response(200, "{\"code\":0}", 42);
    assert!(matches!(r, ProbeOutcome::Success { ms: 42 }));
}

#[test]
fn malformed_body_with_marker_is_a_success() {
    let r = classify_response(200, "\"code\":0,garbage[[", 7);
    assert!(matches!(r, ProbeOutcome::Success { ms: 7 }));
}

#[test]
fn marker_inside_larger_body_is_a_success() {
    let r = classify_response(200, "{\"code\":0,\"data\":", 7);
    assert!(matches!(r, ProbeOutcome::Success { ms: 7 }));
}

#[test]
fn status_500_is_a_failure_naming_the_status() {
    let r = classify_response(500, "{\"code\":0}", 1);
    match r {
        ProbeOutcome::Failure { reason } => assert!(reason.contains("status code: 500")),
        _ => panic!("expected a failure"),
    }
}

#[test]
fn status_403_is_a_failure_naming_the_status() {
    let r = classify_response(403, "", 1);
    match r {
        ProbeOutcome::Failure { reason } => assert_eq!(reason, "status code: 403"),
        _ => panic!("expected a failure"),
    }
}

#[test]
fn nonzero_code_is_a_failure_naming_the_code() {
    let r = classify_response(200, "{\"code\":-404}", 1);
    match r {
        ProbeOutcome::Failure { reason } => assert_eq!(reason, "code: -404"),
        _ => panic!("expected a failure"),
    }
}

#[test]
fn unparseable_body_without_marker_is_a_parse_failure() {
    let r = classify_response(200, "not json at all", 1);
    match r {
        ProbeOutcome::Failure { reason } => assert_eq!(reason, "parse error"),
        _ => panic!("expected a failure"),
    }
}

#[test]
fn progress_line_for_success_and_failure() {
    let ok = ProbeOutcome::Success { ms: 42 };
    assert_eq!(format_progress("example.com", "cn", &ok), "example.com (cn): 42ms");
    let bad = ProbeOutcome::Failure { reason: "status code: 403".to_string() };
    assert_eq!(
        format_progress("example.com", "hk", &bad),
        "example.com (hk): status code: 403"
    );
}

#[test]
fn server_list_drops_comments_and_blank_lines() {
    let lines = vec![
        "# a comment".to_string(),
        "".to_string(),
        "   ".to_string(),
        "\t".to_string(),
        "example.com".to_string(),
        "other.example.org/prefix".to_string(),
    ];
    let kept = get_server_list(lines);
    assert_eq!(kept, vec!["example.com".to_string(), "other.example.org/prefix".to_string()]);
}

#[test]
fn region_table_is_fixed() {
    let eps = ep_list();
    let pairs: Vec<(&str, i32)> = eps.iter().map(|e| (e.area, e.ep)).collect();
    assert_eq!(
        pairs,
        vec![("cn", 266323), ("hk", 425578), ("tw", 285951), ("th", 377544)]
    );
}

#[test]
fn header_names_the_columns() {
    assert_eq!(render_header(), "   cn   |   hk   |   tw   |   th   | server");
}

#[test]
fn row_renders_right_aligned_times_and_blanks() {
    let mut row = new_areas_result("example.com".to_string());
    record_success(&mut row, "cn", AreaResult { code: 0, ms: 7 });
    record_success(&mut row, "th", AreaResult { code: 0, ms: 12345 });
    assert_eq!(render_row(&row), "    7ms |        |        | 12345ms | example.com");
}

#[test]
fn full_success_run_populates_every_region() {
    let servers = get_server_list(vec!["example.com".to_string()]);
    assert_eq!(servers.len(), 1);
    let mut row = new_areas_result(servers[0].clone());
    for area_ep in ep_list() {
        let outcome = classify_response(200, "{\"code\":0}", 5);
        if let ProbeOutcome::Success { ms } = outcome {
            record_success(&mut row, area_ep.area, AreaResult { code: 0, ms });
        }
    }
    assert!(row.cn.as_ref().is_some_and(|a| a.ms == 5));
    assert!(row.hk.as_ref().is_some_and(|a| a.ms == 5));
    assert!(row.tw.as_ref().is_some_and(|a| a.ms == 5));
    assert!(row.th.as_ref().is_some_and(|a| a.ms == 5));
    let rendered = render_row(&row);
    let fields: Vec<&str> = rendered.split('|').collect();
    assert_eq!(fields.len(), 5);
    for field in &fields[..4] {
        assert!(!field.trim().is_empty());
    }
    assert_eq!(fields[4], " example.com");
}

#[test]
fn failing_region_stays_blank_while_others_fill() {
    let servers = get_server_list(vec!["example.com".to_string()]);
    let mut row = new_areas_result(servers[0].clone());
    for area_ep in ep_list() {
        let outcome = if area_ep.area == "hk" {
            classify_response(403, "", 5)
        } else {
            classify_response(200, "{\"code\":0}", 5)
        };
        if let ProbeOutcome::Success { ms } = outcome {
            record_success(&mut row, area_ep.area, AreaResult { code: 0, ms });
        }
    }
    assert!(row.cn.is_some());
    assert!(row.hk.is_none());
    assert!(row.tw.is_some());
    assert!(row.th.is_some());
    let rendered = render_row(&row);
    let fields: Vec<&str> = rendered.split('|').collect();
    assert!(!fields[0].trim().is_empty());
    assert!(fields[1].trim().is_empty());
    assert!(!fields[2].trim().is_empty());
    assert!(!fields[3].trim().is_empty());
}

#[test]
fn unknown_region_is_not_recorded() {
    let mut row = new_areas_result("example.com".to_string());
    record_success(&mut row, "jp", AreaResult { code: 0, ms: 1 });
    assert!(row.cn.is_none() && row.hk.is_none() && row.tw.is_none() && row.th.is_none());
}
