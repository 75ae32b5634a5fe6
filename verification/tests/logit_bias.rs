use llama::logit_bias::{Entry, LogitBiasError};

fn parse(s: &str) -> Result<Vec<Entry<f32>>, LogitBiasError> {
    llama::logit_bias::parse(s, |t: &str| t.parse::<f32>().ok())
}

#[test]
fn empty() {
    assert_eq!(parse("").unwrap(), Vec::<Entry<f32>>::new());
}

#[test]
fn whitespace_only() {
    assert_eq!(parse("   ").unwrap(), Vec::<Entry<f32>>::new());
}

#[test]
fn single() {
    assert_eq!(parse("100:-1.5").unwrap(), vec![Entry { token: 100, bias: -1.5 }]);
}

#[test]
fn multiple() {
    assert_eq!(
        parse("1:2,3:-4").unwrap(),
        vec![Entry { token: 1, bias: 2.0 }, Entry { token: 3, bias: -4.0 }]
    );
}

#[test]
fn surrounding_spaces() {
    assert_eq!(
        parse(" 5 : 0.25 , 6 : -0.5 ").unwrap(),
        vec![Entry { token: 5, bias: 0.25 }, Entry { token: 6, bias: -0.5 }]
    );
}

#[test]
fn trailing_comma() {
    assert_eq!(parse("7:1,").unwrap(), vec![Entry { token: 7, bias: 1.0 }]);
}

#[test]
fn duplicate_last_wins() {
    assert_eq!(parse("9:1,9:-100").unwrap(), vec![Entry { token: 9, bias: -100.0 }]);
}

#[test]
fn bad_pair_no_colon() {
    assert!(parse("abc").is_err());
}

#[test]
fn bad_token() {
    assert!(parse("x:1").is_err());
}

#[test]
fn bad_bias() {
    assert!(parse("5:y").is_err());
}

#[test]
fn empty_bias() {
    assert!(parse("5:").is_err());
}

#[test]
fn empty_token() {
    assert!(parse(":1").is_err());
}

#[test]
fn errors_name_the_trimmed_segment() {
    assert_eq!(parse(" abc ,1:2"), Err(LogitBiasError::NotAPair("abc".to_string())));
    assert_eq!(parse("1:2, x : 1"), Err(LogitBiasError::BadToken("x : 1".to_string())));
    assert_eq!(parse("5:y,abc"), Err(LogitBiasError::BadBias("5:y".to_string())));
    assert_eq!(parse("99999999999:1"), Err(LogitBiasError::BadToken("99999999999:1".to_string())));
}

#[test]
fn duplicate_keeps_first_position() {
    assert_eq!(
        parse("1:1,2:2,1:3").unwrap(),
        vec![Entry { token: 1, bias: 3.0 }, Entry { token: 2, bias: 2.0 }]
    );
}

#[test]
fn unicode_whitespace_is_trimmed() {
    assert_eq!(parse("\u{3000}4\u{A0}:\t2\n").unwrap(), vec![Entry { token: 4, bias: 2.0 }]);
    assert_eq!(parse("+8:-0").unwrap(), vec![Entry { token: 8, bias: -0.0 }]);
}
