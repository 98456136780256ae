use am02_service::weather::{exact_match, match_score, search_cities, urlencode, CityKey};

#[test]
fn test_urlencode() {
    assert_eq!(urlencode("深圳"), "%E6%B7%B1%E5%9C%B3");
    assert_eq!(urlencode("New York"), "New+York");
    assert_eq!(urlencode("a-b.c~d"), "a-b.c~d");
}

#[test]
fn urlencode_reserved_bytes() {
    assert_eq!(urlencode(""), "");
    assert_eq!(urlencode("a/b?c=d&e"), "a%2Fb%3Fc%3Dd%26e");
    assert_eq!(urlencode("Z_9"), "Z_9");
}

#[test]
fn match_score_levels() {
    assert_eq!(match_score("南山区", "南山区"), 3);
    assert_eq!(match_score("南山区", "南山"), 2);
    assert_eq!(match_score("鹤岗南山区", "南山"), 1);
    assert_eq!(match_score("深圳", "南山"), 0);
}

fn key(name: &str, aliases: &[&str], prio: u8) -> CityKey {
    CityKey { name: name.to_string(), aliases: aliases.iter().map(|a| a.to_string()).collect(), prio }
}

fn table() -> Vec<CityKey> {
    vec![
        key("南山区", &["南山"], 50),  // 0: Hegang
        key("深圳市", &["深圳"], 90),  // 1
        key("南山区", &["南山"], 90),  // 2: Shenzhen
        key("北京市", &["北京"], 100), // 3
        key("南山镇", &[], 10),        // 4
    ]
}

#[test]
fn exact_match_prefers_rank_then_order() {
    let t = table();
    assert_eq!(exact_match(&t, "南山区"), Some(2));
    assert_eq!(exact_match(&t, "南山"), Some(2));
    assert_eq!(exact_match(&t, "深圳"), Some(1));
    assert_eq!(exact_match(&t, "深圳市"), Some(1));
    assert_eq!(exact_match(&t, "上海"), None);
    let tie = vec![key("A", &[], 5), key("A", &[], 5)];
    assert_eq!(exact_match(&tie, "A"), Some(0));
}

#[test]
fn search_orders_by_score_rank_name_and_position() {
    let t = table();
    // 南山: alias equal (3) for 0 and 2, prefix (2) for 4
    assert_eq!(search_cities(&t, "南山"), vec![2, 0, 4]);
    assert_eq!(search_cities(&t, "  南山 "), vec![2, 0, 4]);
    assert_eq!(search_cities(&t, "   "), Vec::<usize>::new());
    assert_eq!(search_cities(&t, "市"), vec![3, 1]);
    assert_eq!(search_cities(&t, "上海"), Vec::<usize>::new());
}

#[test]
fn search_keeps_the_ten_best() {
    let mut t = Vec::new();
    for i in 0..15u8 {
        t.push(key(&format!("区{}", i % 10), &[], i));
    }
    let r = search_cities(&t, "区");
    assert_eq!(r.len(), 10);
    let expect: Vec<usize> = (5..15).rev().collect();
    assert_eq!(r, expect);
}

fn url_decode(s: &str) -> Vec<u8> {
    let b = s.as_bytes();
    let mut out = Vec::new();
    let mut i = 0;
    while i < b.len() {
        if b[i] == b'+' {
            out.push(b' ');
            i += 1;
        } else if b[i] == b'%' && i + 2 < b.len() {
            let h = u8::from_str_radix(std::str::from_utf8(&b[i + 1..i + 3]).unwrap(), 16).unwrap();
            out.push(h);
            i += 3;
        } else {
            out.push(b[i]);
            i += 1;
        }
    }
    out
}

#[test]
fn urlencode_is_reversible() {
    for s in ["深圳 南山", "a+b%c", "New York", "~._-", "东北风/西风?x=1&y=2"] {
        assert_eq!(url_decode(&urlencode(s)), s.as_bytes());
    }
}
