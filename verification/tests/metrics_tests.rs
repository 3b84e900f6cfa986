use peercode::metrics::{
    label_value, metric_lines, register_total_within_limit, summarize_tunnel_metrics, text_lines,
    MetricSample,
};
use peercode::processes::TunnelMetricsResponse;

/// Reads each sample line's value as the host does: a number or not, a
/// count when it is a whole number in range, and above zero or not.
fn samples_of(body: &str) -> Vec<MetricSample> {
    metric_lines(body)
        .into_iter()
        .map(|l| match l.raw_value.parse::<f64>() {
            Ok(v) => MetricSample {
                series: l.series,
                parsed: true,
                count: if v.is_finite() && v >= 0.0 && v.fract() == 0.0 && v <= u64::MAX as f64 {
                    Some(v as u64)
                } else {
                    None
                },
                positive: v > 0.0,
                value_text: format!("{v}"),
            },
            Err(_) => MetricSample {
                series: l.series,
                parsed: false,
                count: None,
                positive: false,
                value_text: l.raw_value,
            },
        })
        .collect()
}

fn parse_tunnel_metrics(body: &str) -> Result<TunnelMetricsResponse, String> {
    let samples = samples_of(body);
    assert!(register_total_within_limit(&samples));
    summarize_tunnel_metrics(&samples)
}

#[test]
fn parses_host_relevant_tunnel_metrics() {
    let body = r#"
# HELP cloudflared_tunnel_ha_connections Number of active ha connections
cloudflared_tunnel_ha_connections 1
cloudflared_tunnel_tunnel_register_success{rpcName="registerConnection"} 3
cloudflared_tunnel_request_errors 2
cloudflared_tunnel_server_locations{connection_id="0",edge_location="ist07"} 1
cloudflared_tunnel_server_locations{connection_id="0",edge_location="fra03"} 0
"#;

    assert_eq!(
        parse_tunnel_metrics(body).unwrap(),
        TunnelMetricsResponse {
            ha_connections: 1,
            register_successes: 3,
            request_errors: 2,
            edge_location: Some("ist07".to_string()),
        }
    );
}

#[test]
fn register_successes_add_up_and_later_values_replace_earlier_ones() {
    let body = "cloudflared_tunnel_ha_connections 1\n\
cloudflared_tunnel_ha_connections 4\n\
cloudflared_tunnel_tunnel_register_success{a=\"1\"} 3\n\
cloudflared_tunnel_tunnel_register_success{a=\"2\"} 5\n\
cloudflared_tunnel_request_errors 2\n\
cloudflared_tunnel_request_errors 0\n";
    let m = parse_tunnel_metrics(body).unwrap();
    assert_eq!(m.ha_connections, 4);
    assert_eq!(m.register_successes, 8);
    assert_eq!(m.request_errors, 0);
    assert_eq!(m.edge_location, None);
}

#[test]
fn missing_ha_connections_is_an_error() {
    let err = parse_tunnel_metrics("cloudflared_tunnel_request_errors 2\n").unwrap_err();
    assert_eq!(err, "cloudflared_tunnel_ha_connections metric is missing");
}

#[test]
fn missing_request_errors_is_an_error() {
    let err = parse_tunnel_metrics("cloudflared_tunnel_ha_connections 1\n").unwrap_err();
    assert_eq!(err, "cloudflared_tunnel_request_errors metric is missing");
}

#[test]
fn a_fractional_count_is_an_invalid_value() {
    let body = "cloudflared_tunnel_ha_connections 1.5\ncloudflared_tunnel_request_errors 2\n";
    let err = parse_tunnel_metrics(body).unwrap_err();
    assert_eq!(err, "Invalid value for cloudflared_tunnel_ha_connections: 1.5");
}

#[test]
fn unreadable_values_and_comments_are_passed_over() {
    let body = "# TYPE x gauge\ncloudflared_tunnel_ha_connections abc\ncloudflared_tunnel_ha_connections 2\n\
cloudflared_tunnel_request_errors 1\nnovalue\n";
    let m = parse_tunnel_metrics(body).unwrap();
    assert_eq!(m.ha_connections, 2);
    assert_eq!(m.request_errors, 1);
}

#[test]
fn sample_lines_split_at_the_last_whitespace() {
    let lines = metric_lines("# c\nname{a=\"x y\"} 7\r\nlonely\n\nother 1");
    assert_eq!(lines.len(), 2);
    assert_eq!(lines[0].series, "name{a=\"x y\"}");
    assert_eq!(lines[0].raw_value, "7");
    assert_eq!(lines[1].series, "other");
    assert_eq!(lines[1].raw_value, "1");
}

#[test]
fn text_lines_follow_str_lines() {
    assert_eq!(text_lines("a\r\nb\n\nc\n"), vec!["a", "b", "", "c"]);
    assert_eq!(text_lines(""), Vec::<String>::new());
}

#[test]
fn label_value_reads_the_first_matching_entry_without_quotes() {
    assert_eq!(
        label_value("m{connection_id=\"0\",edge_location=\"ist07\"}", "edge_location"),
        Some("ist07".to_string())
    );
    assert_eq!(label_value("m{a=\"1\",a=\"2\"}", "a"), Some("1".to_string()));
    assert_eq!(label_value("m{a=\"1\"}", "b"), None);
    assert_eq!(label_value("m", "a"), None);
    assert_eq!(label_value("m{a=\"1\"", "a"), None);
}

#[test]
fn register_total_past_u64_max_is_detected() {
    let big = MetricSample {
        series: "cloudflared_tunnel_tunnel_register_success".to_string(),
        parsed: true,
        count: Some(u64::MAX),
        positive: true,
        value_text: "x".to_string(),
    };
    let one = MetricSample { count: Some(1), ..big.clone_sample() };
    assert!(register_total_within_limit(&vec![big.clone_sample()]));
    assert!(!register_total_within_limit(&vec![big, one]));
}

trait CloneSample {
    fn clone_sample(&self) -> MetricSample;
}

impl CloneSample for MetricSample {
    fn clone_sample(&self) -> MetricSample {
        MetricSample {
            series: self.series.clone(),
            parsed: self.parsed,
            count: self.count,
            positive: self.positive,
            value_text: self.value_text.clone(),
        }
    }
}
