use swatchgen::color::LabelColor;
use swatchgen::template::{
    occurrences, replace_all, substitute, template_complete, SlotAssignment, SLOT_COUNT,
};

fn assignments_for(colors: [&str; 5], labels: [LabelColor; 5]) -> Vec<SlotAssignment> {
    let mut v = Vec::new();
    let mut i = 0;
    while i < SLOT_COUNT {
        v.push(SlotAssignment {
            index: i,
            background: colors[i].to_string(),
            label: labels[i],
        });
        i += 1;
    }
    v
}

#[test]
fn replace_all_replaces_every_occurrence() {
    assert_eq!(replace_all("x{a}y{a}z", "{a}", "Q"), "xQyQz");
    assert_eq!(replace_all("{a}{a}{a}", "{a}", ""), "");
    assert_eq!(replace_all("none here", "{a}", "Q"), "none here");
    assert_eq!(replace_all("", "{a}", "Q"), "");
}

#[test]
fn replace_all_scans_left_to_right_without_overlap() {
    assert_eq!(replace_all("aaa", "aa", "b"), "ba");
    assert_eq!(replace_all("aaaa", "aa", "b"), "bb");
}

#[test]
fn substitute_fills_every_slot() {
    let template = "0:{bg_0}/{text_0} 1:{bg_1}/{text_1} 2:{bg_2}/{text_2} \
                    3:{bg_3}/{text_3} 4:{bg_4}/{text_4}";
    let assignments = assignments_for(
        ["FFFFFF", "000000", "FF0000", "00FF00", "0000FF"],
        [
            LabelColor::Black,
            LabelColor::White,
            LabelColor::White,
            LabelColor::Black,
            LabelColor::White,
        ],
    );
    let doc = substitute(template, &assignments).unwrap();
    assert_eq!(
        doc,
        "0:FFFFFF/000000 1:000000/FFFFFF 2:FF0000/FFFFFF \
         3:00FF00/000000 4:0000FF/FFFFFF"
    );
}

#[test]
fn substitute_replaces_repeated_placeholders() {
    let template = "{bg_0}{bg_0}|{text_1}{text_1}|{bg_2}|{text_3}|{bg_4}";
    let assignments = assignments_for(
        ["aa0011", "000000", "FF0000", "00FF00", "0000FF"],
        [
            LabelColor::White,
            LabelColor::White,
            LabelColor::White,
            LabelColor::Black,
            LabelColor::White,
        ],
    );
    let doc = substitute(template, &assignments).unwrap();
    assert_eq!(doc, "aa0011aa0011|FFFFFFFFFFFF|FF0000|000000|0000FF");
}

#[test]
fn substitute_keeps_caller_casing() {
    let template = "{bg_0}-{bg_1}-{bg_2}-{bg_3}-{bg_4}";
    let assignments = assignments_for(
        ["a1B2c3", "AbCdEf", "ffffff", "FFFFFF", "0a0B0c"],
        [LabelColor::White; 5],
    );
    let doc = substitute(template, &assignments).unwrap();
    assert_eq!(doc, "a1B2c3-AbCdEf-ffffff-FFFFFF-0a0B0c");
}

#[test]
fn occurrences_counts_non_overlapping_matches() {
    assert_eq!(occurrences("x{a}y{a}z", "{a}"), 2);
    assert_eq!(occurrences("aaa", "aa"), 1);
    assert_eq!(occurrences("aaaa", "aa"), 2);
    assert_eq!(occurrences("none", "{a}"), 0);
    assert_eq!(occurrences("", "{a}"), 0);
}

#[test]
fn template_complete_requires_each_placeholder_once() {
    let good = "{bg_0}{text_0}{bg_1}{text_1}{bg_2}{text_2}{bg_3}{text_3}{bg_4}{text_4}";
    assert!(template_complete(good));
    let missing = "{bg_0}{text_0}{bg_1}{text_1}{bg_2}{text_2}{bg_3}{text_3}{bg_4}";
    assert!(!template_complete(missing));
    let doubled = "{bg_0}{bg_0}{text_0}{bg_1}{text_1}{bg_2}{text_2}{bg_3}{text_3}{bg_4}{text_4}";
    assert!(!template_complete(doubled));
    assert!(!template_complete(""));
}

#[test]
fn substitute_rejects_wrong_arity() {
    let mut assignments = assignments_for(
        ["FFFFFF", "000000", "FF0000", "00FF00", "0000FF"],
        [LabelColor::White; 5],
    );
    assignments.pop();
    assert!(substitute("{bg_0}", &assignments).is_err());
}

#[test]
fn substitute_rejects_out_of_order_slots() {
    let mut assignments = assignments_for(
        ["FFFFFF", "000000", "FF0000", "00FF00", "0000FF"],
        [LabelColor::White; 5],
    );
    assignments[1].index = 3;
    assert!(substitute("{bg_0}", &assignments).is_err());
}
