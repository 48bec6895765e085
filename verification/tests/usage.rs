use csloop::json_codec::parse_json;
use csloop::usage::TokenUsage;

fn fields(u: TokenUsage) -> (u64, u64, u64, u64, u64) {
    (u.input, u.output, u.reasoning, u.cache_write, u.cache_read)
}

#[test]
fn usage_is_read_from_either_shape() {
    let j = parse_json("{\"input_tokens\":1,\"output_tokens\":2,\"reasoning_tokens\":3,\"cache_creation_input_tokens\":4,\"cache_read_input_tokens\":5}").unwrap();
    assert_eq!(fields(TokenUsage::from_raw(Some(&j))), (1, 2, 3, 4, 5));
    let j = parse_json("{\"prompt_tokens\":7,\"input_tokens\":1,\"completion_tokens\":8}").unwrap();
    assert_eq!(fields(TokenUsage::from_raw(Some(&j))), (7, 8, 0, 0, 0));
    let j = parse_json("{\"prompt_tokens\":\"x\",\"input_tokens\":-1}").unwrap();
    assert_eq!(fields(TokenUsage::from_raw(Some(&j))), (0, 0, 0, 0, 0));
    assert_eq!(fields(TokenUsage::from_raw(None)), (0, 0, 0, 0, 0));
}

#[test]
fn totals_leave_reasoning_out_and_add_up() {
    let a = TokenUsage { input: 1, output: 10, reasoning: 100, cache_write: 1000, cache_read: 10000 };
    assert_eq!(a.total(), 11011);
    assert_eq!((a + a).total(), 22022);
    assert_eq!(fields(a + TokenUsage::default()), fields(a));
    let mut b = a;
    b.add_assign(a);
    assert_eq!(fields(b), (2, 20, 200, 2000, 20000));
}

#[test]
fn sums_that_do_not_fit_are_seen() {
    let a = TokenUsage { input: u64::MAX, output: 0, reasoning: 0, cache_write: 0, cache_read: 0 };
    let b = TokenUsage { input: 1, output: 0, reasoning: 0, cache_write: 0, cache_read: 0 };
    assert!(a.total_fits());
    assert!(!a.can_add(&b));
    assert!(b.can_add(&b));
    assert!(!TokenUsage { input: u64::MAX, output: 1, reasoning: 0, cache_write: 0, cache_read: 0 }.total_fits());
}
