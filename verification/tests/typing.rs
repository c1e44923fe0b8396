use omegawhisper::typing::{
    key_events, type_text_on_mac, type_text_step, typing_chunks, typing_command, MacTyping,
    TypingStep, TypingTool,
};

#[test]
fn a_long_text_is_cut_into_pieces() {
    assert!(typing_chunks("").is_empty());
    assert_eq!(typing_chunks("hello"), vec!["hello"]);
    let text = "a".repeat(45);
    let pieces = typing_chunks(&text);
    assert_eq!(pieces.iter().map(|p| p.len()).collect::<Vec<_>>(), vec![20, 20, 5]);
    assert_eq!(pieces.concat(), text);
}

#[test]
fn a_surrogate_pair_is_never_split() {
    let text = format!("{}😀😀tail", "x".repeat(19));
    let pieces = typing_chunks(&text);
    assert_eq!(pieces[0], "x".repeat(19));
    assert_eq!(pieces[1], "😀😀tail");
    assert_eq!(pieces.concat(), text);
    for piece in typing_chunks(&"ж😀".repeat(50)) {
        assert!(piece.encode_utf16().count() <= 20);
    }
}

#[test]
fn the_tools_are_tried_in_turn() {
    assert!(matches!(type_text_step("", None), TypingStep::Done));
    assert!(matches!(type_text_step("a", None), TypingStep::Run(TypingTool::Ydotool)));
    let failed = |tool| type_text_step("a", Some((tool, false)));
    assert!(matches!(failed(TypingTool::Ydotool), TypingStep::Run(TypingTool::Wtype)));
    assert!(matches!(failed(TypingTool::Wtype), TypingStep::Run(TypingTool::Xdotool)));
    match failed(TypingTool::Xdotool) {
        TypingStep::Failed(message) => {
            assert_eq!(message, "Failed to type text: ydotool, wtype, and xdotool all failed")
        }
        _ => panic!("not failed"),
    }
    for tool in [TypingTool::Ydotool, TypingTool::Wtype, TypingTool::Xdotool] {
        assert!(matches!(type_text_step("a", Some((tool, true))), TypingStep::Done));
    }
}

#[test]
fn each_tool_has_its_command() {
    let c = typing_command(TypingTool::Ydotool, "-x");
    assert_eq!((c.program.as_str(), c.args), ("ydotool", vec!["type".to_string(), "--key-delay=0".to_string(), "--".to_string(), "-x".to_string()]));
    let c = typing_command(TypingTool::Wtype, "t");
    assert_eq!((c.program.as_str(), c.args), ("wtype", vec!["t".to_string()]));
    let c = typing_command(TypingTool::Xdotool, "t");
    assert_eq!((c.program.as_str(), c.args), ("xdotool", vec!["type".to_string(), "--clearmodifiers".to_string(), "t".to_string()]));
}

#[test]
fn typing_by_key_events_needs_the_permission() {
    assert!(matches!(type_text_on_mac("", false), MacTyping::Done));
    assert!(matches!(type_text_on_mac("", true), MacTyping::Done));
    match type_text_on_mac("a", false) {
        MacTyping::Refused(message) => assert_eq!(
            message,
            "Accessibility permission is not granted, so text cannot be typed. Add Omegawhisper in System Settings > Privacy & Security > Accessibility."
        ),
        _ => panic!("not refused"),
    }
    let text = "ж😀".repeat(50);
    match type_text_on_mac(&text, true) {
        MacTyping::Pieces(pieces) => assert_eq!(pieces, typing_chunks(&text)),
        _ => panic!("not typed"),
    }
}

#[test]
fn each_piece_goes_down_once_and_up_once() {
    let text = format!("{}😀tail", "x".repeat(39));
    let MacTyping::Pieces(pieces) = type_text_on_mac(&text, true) else {
        panic!("not typed");
    };
    let mut pressed = String::new();
    for piece in &pieces {
        let keys = key_events(piece);
        assert_eq!(keys.len(), 2);
        assert!(keys[0].key_down && !keys[1].key_down);
        assert!(keys.iter().all(|k| k.modifiers == 0 && &k.text == piece));
        pressed.push_str(&keys[0].text);
    }
    assert_eq!(pressed, text);
}
