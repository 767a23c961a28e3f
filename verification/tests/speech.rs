use novus_voice::speech::{calm, speakable_text};

#[test]
fn straightens_curly_apostrophes() {
    assert_eq!(speakable_text("He said don’t worry."), "He said don't worry.");
}

#[test]
fn lowercases_caps_styled_prose() {
    assert_eq!(
        speakable_text("IT WAS A BRIGHT COLD DAY."),
        "it was A bright cold day."
    );
    assert_eq!(speakable_text("“DIDN’T YOU?”"), "“didn't you?”");
}

#[test]
fn leaves_ordinary_case_alone() {
    assert_eq!(speakable_text("I saw McDONALD yesterday."), "I saw McDONALD yesterday.");
    assert_eq!(speakable_text("The iPhone I bought."), "The iPhone I bought.");
}

#[test]
fn preserves_char_count() {
    let input = "“DON’T,” he said — com\u{00AD}pletely.";
    assert_eq!(speakable_text(input).chars().count(), input.chars().count());
}

#[test]
fn all_three_apostrophes_become_straight() {
    assert_eq!(speakable_text("\u{2018}a\u{2019}b\u{02BC}c"), "'a'b'c");
}

#[test]
fn a_letter_on_either_side_keeps_the_capitals() {
    assert_eq!(speakable_text("NASAs USs éAB ABé 1AB2"), "NASAs USs éAB ABé 1ab2");
}

#[test]
fn apostrophes_join_but_do_not_count() {
    assert_eq!(speakable_text("A' A'B 'AB' A''"), "A' a'b 'ab' A''");
}

#[test]
fn spoken_form_is_stable() {
    for text in ["IT WAS", "“DIDN’T YOU?”", "A'B c", "McDONALD", ""] {
        let once = speakable_text(text);
        assert_eq!(speakable_text(&once), once);
    }
}

#[test]
fn calm_goes_by_the_letters_it_is_given() {
    let chars: Vec<char> = "xAB".chars().collect();
    let kept: String = calm(&chars, &vec![true, true, true]).into_iter().collect();
    let calmed: String = calm(&chars, &vec![false, true, true]).into_iter().collect();
    assert_eq!(kept, "xAB");
    assert_eq!(calmed, "xab");
}

#[test]
fn separators_part_the_spoken_form() {
    let sides = ["", "IT", "DIDN’T", "Mc", "AB'", "'", "É", "A", "ABé"];
    for c in [' ', ',', '7', '“', '\n'] {
        for a in sides {
            for b in sides {
                let whole = format!("{a}{c}{b}");
                let parts = format!("{}{c}{}", speakable_text(a), speakable_text(b));
                assert_eq!(speakable_text(&whole), parts);
            }
        }
    }
}

#[test]
fn ascii_letters_are_the_alphabetic_ones() {
    for c in '\u{0}'..'\u{80}' {
        assert_eq!(c.is_alphabetic(), c.is_ascii_alphabetic());
    }
}
