use xuanji::protocol::Protocol;

#[test]
fn test_from_str() {
    assert_eq!(Protocol::from_str("openai").unwrap(), Protocol::OpenAI);
    assert_eq!(Protocol::from_str("OpenAI").unwrap(), Protocol::OpenAI);
    assert_eq!(Protocol::from_str("anthropic").unwrap(), Protocol::Anthropic);
    assert_eq!(Protocol::from_str("ANTHROPIC").unwrap(), Protocol::Anthropic);
    assert_eq!(Protocol::from_str("gemini").unwrap(), Protocol::Gemini);
    assert!(Protocol::from_str("unknown").is_err());
}

#[test]
fn test_display() {
    assert_eq!(Protocol::OpenAI.to_string(), "openai");
    assert_eq!(Protocol::Anthropic.to_string(), "anthropic");
    assert_eq!(Protocol::Gemini.to_string(), "gemini");
}

#[test]
fn test_protocol_from_str_openai() {
    assert_eq!(Protocol::from_str("openai").unwrap(), Protocol::OpenAI);
}

#[test]
fn test_protocol_from_str_case_insensitive() {
    assert_eq!(Protocol::from_str("OpenAI").unwrap(), Protocol::OpenAI);
    assert_eq!(Protocol::from_str("ANTHROPIC").unwrap(), Protocol::Anthropic);
    assert_eq!(Protocol::from_str("Gemini").unwrap(), Protocol::Gemini);
}

#[test]
fn test_protocol_from_str_unknown() {
    assert!(Protocol::from_str("unknown").is_err());
    assert!(Protocol::from_str("").is_err());
}

#[test]
fn test_protocol_display() {
    assert_eq!(Protocol::OpenAI.to_string(), "openai");
    assert_eq!(Protocol::Anthropic.to_string(), "anthropic");
    assert_eq!(Protocol::Gemini.to_string(), "gemini");
}

#[test]
fn protocol_name_round_trips() {
    for p in [Protocol::OpenAI, Protocol::Anthropic, Protocol::Gemini] {
        assert_eq!(Protocol::from_str(&p.to_string()).unwrap(), p);
    }
}

#[test]
fn unknown_protocol_error_text() {
    assert_eq!(Protocol::from_str("mistral").unwrap_err(), "unsupported protocol: mistral");
}

#[test]
fn protocol_parses_alike_after_lowering() {
    for s in ["OpenAI", "ANTHROPIC", "Gemini", "other"] {
        assert_eq!(Protocol::from_str(s).ok(), Protocol::from_str(&s.to_lowercase()).ok());
    }
}
