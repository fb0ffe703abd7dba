use brush_traffic::{FetcherOf66, FetcherOfHappy, FetcherOfQuick};

#[test]
fn bare_pair_extracts_one_record() {
    let body = b"<html><table><td>12.34.56.78</td><td>8080</td></table></html>";
    let records = FetcherOf66::new().parse_body(body);
    assert_eq!(records.len(), 1);
    let p = records[0];
    assert_eq!((p.ipv4addr.o1, p.ipv4addr.o2, p.ipv4addr.o3, p.ipv4addr.o4), (12, 34, 56, 78));
    assert_eq!(p.port, 8080);
    assert_eq!(p.into_string(), "http://12.34.56.78:8080");
}

#[test]
fn bare_pair_extracts_in_order() {
    let body = b"<td>1.2.3.4</td><td>80</td>junk<td>5.6.7.8</td><td>3128</td>";
    let records = FetcherOf66::new().parse_body(body);
    assert_eq!(records.len(), 2);
    assert_eq!(records[0].into_string(), "http://1.2.3.4:80");
    assert_eq!(records[1].into_string(), "http://5.6.7.8:3128");
}

#[test]
fn no_match_yields_empty_not_error() {
    let body = b"<html><p>no rows here</p><td>not an address</td></html>";
    assert_eq!(FetcherOf66::new().parse_body(body).len(), 0);
    assert_eq!(FetcherOfHappy::new().parse_body(body).len(), 0);
    assert_eq!(FetcherOfQuick::new().parse_body(body).len(), 0);
}

#[test]
fn unreadable_rows_are_dropped_silently() {
    // An octet over 255, a leading zero, and a port over 65535: each row
    // matches the pattern but reads as no record.
    let body = b"<td>999.1.1.1</td><td>80</td>\
                 <td>01.2.3.4</td><td>80</td>\
                 <td>1.2.3.4</td><td>70000</td>\
                 <td>9.9.9.9</td><td>53</td>";
    let records = FetcherOf66::new().parse_body(body);
    assert_eq!(records.len(), 1);
    assert_eq!(records[0].into_string(), "http://9.9.9.9:53");
}

#[test]
fn four_cell_extracts_one_record() {
    let body = b"<table>\n<td>5.6.7.8</td>\n  <td>8080</td>\n  <td>high</td>\n  <td>HTTP</td>\n</table>";
    let records = FetcherOfHappy::new().parse_body(body);
    assert_eq!(records.len(), 1);
    assert_eq!(records[0].into_string(), "http://5.6.7.8:8080");
}

#[test]
fn four_cell_reads_protocol() {
    let body = b"<td>5.6.7.8</td> <td>443</td> <td>anon_1</td> <td>HTTPS</td>";
    let records = FetcherOfQuick::new().parse_body(body);
    assert_eq!(records.len(), 1);
    assert_eq!(records[0].into_string(), "https://5.6.7.8:443");
}

#[test]
fn four_cell_needs_all_cells() {
    // No whitespace between the first two cells: the four-cell pattern does
    // not apply, and the bare-pair pattern would.
    let body = b"<td>5.6.7.8</td><td>8080</td> <td>x</td> <td>http</td>";
    assert_eq!(FetcherOfHappy::new().parse_body(body).len(), 0);
    assert_eq!(FetcherOf66::new().parse_body(body).len(), 1);
}
