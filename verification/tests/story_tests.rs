//! Tests of the story controller: divert resolution, choice resumption and
//! the terminal knot names.

use inkling::{Knot, Story, StoryAction};

#[test]
fn story_internally_follows_through_knots_when_diverts_are_found() {
    let knot1_name = "back_in_london".to_string();
    let knot2_name = "hurry_home".to_string();

    let knot1_text = format!(
        "\
We arrived into London at 9.45pm exactly.
-> {}\
",
        knot2_name
    );

    let knot2_text = format!(
        "\
             We hurried home to Savile Row as fast as we could.\
             "
    );

    let mut knots = Vec::new();

    knots.push((knot1_name.clone(), Knot::from_str(&knot1_text).unwrap()));
    knots.push((knot2_name, Knot::from_str(&knot2_text).unwrap()));

    let mut story = Story::new(knots, knot1_name);

    let mut buffer = Vec::new();

    story.follow_knot(&mut buffer).unwrap();

    assert_eq!(&buffer.last().unwrap().text, &knot2_text);
}

#[test]
fn story_internally_resumes_from_the_new_knot_after_a_choice_is_made() {
    let knot1_name = "back_in_london".to_string();
    let knot2_name = "hurry_home".to_string();

    let knot1_text = format!(
        "\
We arrived into London at 9.45pm exactly.
-> {}\
",
        knot2_name
    );

    let knot2_text = format!(
        "\
\"What's that?\" my master asked.
*	\"I am somewhat tired[.\"],\" I repeated.
	\"Really,\" he responded. \"How deleterious.\"
*	\"Nothing, Monsieur!\"[] I replied.
	\"Very good, then.\"
*   \"I said, this journey is appalling[.\"] and I want no more of it.\"
	\"Ah,\" he replied, not unkindly. \"I see you are feeling frustrated. Tomorrow, things will improve.\"\
"
    );

    let mut knots = Vec::new();

    knots.push((knot1_name.clone(), Knot::from_str(&knot1_text).unwrap()));
    knots.push((knot2_name, Knot::from_str(&knot2_text).unwrap()));

    let mut story = Story::new(knots, knot1_name);

    let mut buffer = Vec::new();

    story.follow_knot(&mut buffer).unwrap();
    story.follow_knot_with_choice(1, &mut buffer).unwrap();

    assert_eq!(&buffer.last().unwrap().text, "\"Very good, then.\"");
}

#[test]
fn when_a_knot_is_returned_to_the_text_starts_from_the_beginning() {
    let knot1_name = "back_in_london".to_string();
    let knot2_name = "hurry_home".to_string();

    let knot1_line = "We arrived into London at 9.45pm exactly.";

    let knot1_text = format!(
        "\
{}
-> {}\
",
        knot1_line, knot2_name
    );

    let knot2_text = format!(
        "\
*   We hurried home to Savile Row as fast as we could.
*   But we decided our trip wasn't done and immediately left.
    After a few days me returned again.
    -> {}\
",
        knot1_name
    );

    let mut knots = Vec::new();

    knots.push((knot1_name.clone(), Knot::from_str(&knot1_text).unwrap()));
    knots.push((knot2_name, Knot::from_str(&knot2_text).unwrap()));

    let mut story = Story::new(knots, knot1_name);

    let mut buffer = Vec::new();

    story.follow_knot(&mut buffer).unwrap();
    story.follow_knot_with_choice(1, &mut buffer).unwrap();

    assert_eq!(&buffer[0].text, knot1_line);
    assert_eq!(&buffer[5].text, knot1_line);
}

#[test]
fn divert_to_done_or_end_constant_knots_ends_story() {
    let knot_done_text = "\
    -> DONE
    ";

    let knot_end_text = "\
    -> END
    ";

    let knot_done = Knot::from_str(&knot_done_text).unwrap();
    let knot_end = Knot::from_str(&knot_end_text).unwrap();

    let mut knots = Vec::new();
    knots.push(("knot_done".to_string(), knot_done));
    knots.push(("knot_end".to_string(), knot_end));

    let mut story = Story::new(knots, "knot_done".to_string());

    let mut buffer = Vec::new();

    match story.start(&mut buffer).unwrap() {
        StoryAction::Done => (),
        _ => panic!("story should be done when diverting to DONE knot"),
    }

    story.set_current_knot("knot_end".to_string());

    match story.start(&mut buffer).unwrap() {
        StoryAction::Done => (),
        _ => panic!("story should be done when diverting to END knot"),
    }
}
