use faux_show_backend::commands::Command;
use faux_show_backend::voice_command::{
    clean_word, phrase_targets, LivekitTranscriptionSegment, VoiceCommand, VoiceCommandAction, VoiceCommandList,
    VoiceCommandMode,
};

fn segment(words: &[&str]) -> LivekitTranscriptionSegment {
    LivekitTranscriptionSegment {
        text: words.join(" "),
        completed: false,
        words: Some(words.iter().map(|w| w.to_string()).collect()),
    }
}

#[test]
fn transcribed_words_are_cleaned() {
    assert_eq!(clean_word(" Page!"), "page");
    assert_eq!(clean_word("EXAMPLE"), "example");
    assert_eq!(clean_word("done?"), "done");
}

#[test]
fn phrase_words_are_tidied() {
    assert_eq!(phrase_targets("Example Page"), vec!["example".to_string(), "page".to_string()]);
    assert_eq!(phrase_targets(""), vec!["".to_string()]);
}

#[test]
fn contains_matches_words_in_order_across_segments() {
    let mode = VoiceCommandMode::Contains("example page".to_string());
    let segments = vec![segment(&["Hey,", "open", "the", "Example"]), segment(&[" page."])];
    assert_eq!(mode.check_for_match(&segments), Some(vec![3, 4]));
}

#[test]
fn contains_takes_the_earliest_words() {
    let mode = VoiceCommandMode::Contains("page page".to_string());
    let segments = vec![segment(&["page", "x", "page", "page"])];
    assert_eq!(mode.check_for_match(&segments), Some(vec![0, 2]));
}

#[test]
fn contains_needs_the_order() {
    let mode = VoiceCommandMode::Contains("example page".to_string());
    let segments = vec![segment(&["page", "example"])];
    assert_eq!(mode.check_for_match(&segments), None);
}

#[test]
fn segments_without_words_are_skipped() {
    let mode = VoiceCommandMode::Contains("lights".to_string());
    let segments = vec![
        LivekitTranscriptionSegment { text: "lights".to_string(), completed: true, words: None },
        segment(&["Lights!"]),
    ];
    assert_eq!(mode.check_for_match(&segments), Some(vec![0]));
    let wordless = vec![LivekitTranscriptionSegment { text: "lights".to_string(), completed: true, words: None }];
    assert_eq!(mode.check_for_match(&wordless), None);
}

#[test]
fn timer_never_matches() {
    let segments = vec![segment(&["timer"])];
    assert_eq!(VoiceCommandMode::Timer.check_for_match(&segments), None);
}

#[test]
fn every_command_of_the_list_is_checked() {
    let list = VoiceCommandList {
        commands: vec![
            VoiceCommand {
                mode: VoiceCommandMode::Contains("example page".to_string()),
                action: Some(VoiceCommandAction::OpenPage("http://www.example.com".to_string())),
            },
            VoiceCommand { mode: VoiceCommandMode::Timer, action: None },
            VoiceCommand { mode: VoiceCommandMode::Contains("page".to_string()), action: None },
        ],
    };
    let segments = vec![segment(&["example", "page"])];
    assert_eq!(list.match_all(&segments), vec![Some(vec![0, 1]), None, Some(vec![1])]);
}

#[test]
fn running_a_command_sends_its_page() {
    let open = VoiceCommand {
        mode: VoiceCommandMode::Contains("example page".to_string()),
        action: Some(VoiceCommandAction::OpenPage("http://www.example.com".to_string())),
    };
    assert_eq!(open.command_to_send(), Some(Command::AutoTab("http://www.example.com".to_string())));
    let no_action = VoiceCommand { mode: VoiceCommandMode::Contains("x".to_string()), action: None };
    assert_eq!(no_action.command_to_send(), None);
    let timer = VoiceCommand {
        mode: VoiceCommandMode::Timer,
        action: Some(VoiceCommandAction::OpenPage("http://www.example.com".to_string())),
    };
    assert_eq!(timer.command_to_send(), None);
    assert_eq!(
        VoiceCommandAction::OpenPage("p".to_string()).to_command(),
        Command::AutoTab("p".to_string())
    );
}
