use hb_buy_strategy::api::{encode_query, sorted_params, text_less, HbApi};

fn pairs(items: &[(&str, &str)]) -> Vec<(String, String)> {
    items.iter().map(|(k, v)| (k.to_string(), v.to_string())).collect()
}

fn demo_api() -> HbApi {
    HbApi::new("demo-access", "demo-secret", "api.huobi.pro")
}

const TS: &str = "2020-12-22T11:08:43";

#[test]
fn text_less_orders_by_characters() {
    assert!(text_less("Amount", "amount"));
    assert!(text_less("abc", "abd"));
    assert!(text_less("ab", "abc"));
    assert!(!text_less("abc", "ab"));
    assert!(!text_less("same", "same"));
    assert!(text_less("", "a"));
    assert!(!text_less("", ""));
    assert!(text_less("z", "é"));
}

#[test]
fn sorted_params_orders_and_keeps_last_value() {
    let input = pairs(&[("type", "buy"), ("amount", "6"), ("symbol", "xrpusdt"), ("amount", "7")]);
    let sorted = sorted_params(&input);
    assert_eq!(sorted, pairs(&[("amount", "7"), ("symbol", "xrpusdt"), ("type", "buy")]));
}

#[test]
fn sorted_params_of_nothing_is_empty() {
    assert!(sorted_params(&Vec::new()).is_empty());
}

#[test]
fn encode_query_percent_encodes_values() {
    let q = encode_query(&pairs(&[("a", "x y"), ("b", "&a%b!c.d?e"), ("c", "👾 Exterminate!"), ("d", "-_.~")]));
    assert_eq!(q, "a=x%20y&b=%26a%25b%21c.d%3Fe&c=%F0%9F%91%BE%20Exterminate%21&d=-_.~&");
}

#[test]
fn encode_query_of_nothing_is_empty() {
    assert_eq!(encode_query(&Vec::new()), "");
}

#[test]
fn json_param_at_puts_signature_params_first() {
    let api = demo_api();
    let merged = api.json_param_at(&pairs(&[("symbol", "xrpusdt")]), TS);
    assert_eq!(
        merged,
        pairs(&[
            ("AccessKeyId", "demo-access"),
            ("SignatureMethod", "HmacSHA256"),
            ("SignatureVersion", "2"),
            ("Timestamp", TS),
            ("symbol", "xrpusdt"),
        ])
    );
}

#[test]
fn json_param_uses_the_clock() {
    let api = demo_api();
    let merged = api.json_param(&Vec::new());
    assert_eq!(merged.len(), 4);
    assert_eq!(merged[3].0, "Timestamp");
    let ts = &merged[3].1;
    assert_eq!(ts.len(), 19);
    assert!(ts.chars().enumerate().all(|(i, c)| match i {
        4 | 7 => c == '-',
        10 => c == 'T',
        13 | 16 => c == ':',
        _ => c.is_ascii_digit(),
    }));
    assert_eq!(&ts[4..5], "-");
    assert_eq!(&ts[10..11], "T");
    assert_eq!(&ts[13..14], ":");
}

#[test]
fn url_param_at_signature_params_only() {
    let api = demo_api();
    assert_eq!(
        api.url_param_at(&Vec::new(), TS),
        "AccessKeyId=demo-access&SignatureMethod=HmacSHA256&SignatureVersion=2&Timestamp=2020-12-22T11%3A08%3A43&"
    );
}

#[test]
fn url_param_at_with_caller_params() {
    let api = demo_api();
    let param = pairs(&[
        ("symbol", "xrpusdt"),
        ("account-id", "17835863"),
        ("type", "sell-market"),
        ("amount", "6"),
        ("note", "a b/c"),
    ]);
    assert_eq!(
        api.url_param_at(&param, TS),
        "AccessKeyId=demo-access&SignatureMethod=HmacSHA256&SignatureVersion=2&Timestamp=2020-12-22T11%3A08%3A43&account-id=17835863&amount=6&note=a%20b%2Fc&symbol=xrpusdt&type=sell-market&"
    );
}

#[test]
fn url_param_at_caller_overrides_signature_param() {
    let api = demo_api();
    assert_eq!(
        api.url_param_at(&pairs(&[("AccessKeyId", "other")]), TS),
        "AccessKeyId=other&SignatureMethod=HmacSHA256&SignatureVersion=2&Timestamp=2020-12-22T11%3A08%3A43&"
    );
}

#[test]
fn url_param_at_ignores_order_of_pairs() {
    let api = demo_api();
    let a = api.url_param_at(&pairs(&[("x", "1"), ("y", "2")]), TS);
    let b = api.url_param_at(&pairs(&[("y", "2"), ("x", "1")]), TS);
    assert_eq!(a, b);
}

#[test]
fn url_param_ends_with_ampersand() {
    let api = demo_api();
    let q = api.url_param(&Vec::new());
    assert!(q.starts_with("AccessKeyId=demo-access&SignatureMethod=HmacSHA256&SignatureVersion=2&Timestamp="));
    assert!(q.ends_with('&'));
}

#[test]
fn hmac_base64_encode_known_value() {
    let api = demo_api();
    assert_eq!(
        api.hmac_base64_encode("GET\napi.huobi.pro\n/v1/account/accounts\nx=1"),
        "FHda6INpeJPBKW8%2BvmrAZhZGyKKmNOttRBeFYdrRDRk%3D"
    );
}

#[test]
fn signature_is_padded_base64() {
    let api = demo_api();
    let sig = api.hmac_base64_encode("any payload");
    // 44 base64 characters ending in one '=', percent-encoded: '=' as %3D
    assert!(sig.ends_with("%3D"));
    assert!(!sig[..sig.len() - 3].ends_with("%3D"));
    let plain = sig.replace("%2B", "+").replace("%2F", "/").replace("%3D", "=");
    assert_eq!(plain.len(), 44);
}

#[test]
fn http_get_request_at_known_url() {
    let api = demo_api();
    let req = api.http_get_request_at("/v1/account/accounts", &Vec::new(), TS);
    assert_eq!(
        req.query,
        "AccessKeyId=demo-access&SignatureMethod=HmacSHA256&SignatureVersion=2&Timestamp=2020-12-22T11%3A08%3A43&"
    );
    assert_eq!(
        req.url,
        "https://api.huobi.pro/v1/account/accounts?AccessKeyId=demo-access&SignatureMethod=HmacSHA256&SignatureVersion=2&Timestamp=2020-12-22T11%3A08%3A43&Signature=OnFpiOGaTvPv2fAqVGr%2FEwrEQ6czM9J8nnL1jANfFwc%3D"
    );
}

#[test]
fn http_get_request_at_with_params_known_url() {
    let api = demo_api();
    let param = pairs(&[
        ("symbol", "xrpusdt"),
        ("account-id", "17835863"),
        ("type", "sell-market"),
        ("amount", "6"),
        ("note", "a b/c"),
    ]);
    let req = api.http_get_request_at("/v1/order/orders", &param, TS);
    assert_eq!(
        req.url,
        "https://api.huobi.pro/v1/order/orders?AccessKeyId=demo-access&SignatureMethod=HmacSHA256&SignatureVersion=2&Timestamp=2020-12-22T11%3A08%3A43&account-id=17835863&amount=6&note=a%20b%2Fc&symbol=xrpusdt&type=sell-market&Signature=aY4RdvS%2B5hAD2R8TGmF%2FNoOOcQSP6oCTw0nAghgkUqc%3D"
    );
}

#[test]
fn http_post_request_at_known_url() {
    let api = demo_api();
    let req = api.http_post_request_at("/v1/order/orders/place", TS);
    assert_eq!(
        req.url,
        "https://api.huobi.pro/v1/order/orders/place?AccessKeyId=demo-access&SignatureMethod=HmacSHA256&SignatureVersion=2&Timestamp=2020-12-22T11%3A08%3A43&Signature=6xMQhqTYip77JeExfVQcw0%2BE8EbxIhU%2FhMmJkby6tkY%3D"
    );
}

#[test]
fn http_get_request_uses_clock() {
    let api = demo_api();
    let req = api.http_get_request("/v1/account/accounts", &Vec::new());
    assert!(req.url.starts_with("https://api.huobi.pro/v1/account/accounts?AccessKeyId=demo-access&"));
    assert!(req.url.contains("&Signature="));
    assert!(req.url.contains(&req.query));
}

#[test]
fn http_post_request_uses_clock() {
    let api = demo_api();
    let req = api.http_post_request("/v1/order/orders/place");
    assert!(req.url.starts_with("https://api.huobi.pro/v1/order/orders/place?AccessKeyId=demo-access&"));
    assert!(req.query.ends_with('&'));
}

#[test]
fn get_symbols_request_path() {
    let api = demo_api();
    let req = api.get_symbols_request();
    assert!(req.url.starts_with("https://api.huobi.pro/v1/common/symbols?AccessKeyId=demo-access&"));
}

#[test]
fn get_current_amount_url_known() {
    let api = HbApi::new("", "", "api.huobi.pro");
    assert_eq!(
        api.get_current_amount_url("btc"),
        "https://api.huobi.pro/market/history/kline?period=1min&symbol=btcusdt&size=1"
    );
}
