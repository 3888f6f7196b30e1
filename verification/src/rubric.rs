//! The rubric: twenty manipulation categories, each with a name, a
//! question and a worked example.
use vstd::prelude::*;

use crate::text::{
    contains_run,
    chars_of, decimal, pad_left, pad_right, push_chars, push_decimal, push_spaces, push_str,
};

verus! {

/// One category of the rubric.
pub struct Category {
    pub id: u8,
    pub name: &'static str,
    pub question: &'static str,
    pub example: &'static str,
}

/// The name of the category numbered `id` (`1..=20`).
pub open spec fn category_name(id: int) -> Seq<char> {
    if id == 1 {
        "Timing"@
    } else if id == 2 {
        "Emotional Manipulation"@
    } else if id == 3 {
        "Uniform Messaging"@
    } else if id == 4 {
        "Missing Information"@
    } else if id == 5 {
        "Simplistic Narratives"@
    } else if id == 6 {
        "Tribal Division"@
    } else if id == 7 {
        "Authority Overload"@
    } else if id == 8 {
        "Call for Urgent Action"@
    } else if id == 9 {
        "Overuse of Novelty"@
    } else if id == 10 {
        "Financial/Political Gain"@
    } else if id == 11 {
        "Suppression of Dissent"@
    } else if id == 12 {
        "False Dilemmas"@
    } else if id == 13 {
        "Bandwagon Effect"@
    } else if id == 14 {
        "Emotional Repetition"@
    } else if id == 15 {
        "Cherry-Picked Data"@
    } else if id == 16 {
        "Logical Fallacies"@
    } else if id == 17 {
        "Manufactured Outrage"@
    } else if id == 18 {
        "Framing Techniques"@
    } else if id == 19 {
        "Rapid Behavior Shifts"@
    } else if id == 20 {
        "Historical Parallels"@
    } else {
        Seq::empty()
    }
}

/// The question that the category numbered `id` asks.
pub open spec fn category_question(id: int) -> Seq<char> {
    if id == 1 {
        "Does the timing feel suspicious or coincidental with other events?"@
    } else if id == 2 {
        "Does it provoke fear, outrage, or guilt without solid evidence?"@
    } else if id == 3 {
        "Are key phrases or ideas repeated across media?"@
    } else if id == 4 {
        "Are alternative views or critical details excluded?"@
    } else if id == 5 {
        "Is the story reduced to 'good vs. evil' frameworks?"@
    } else if id == 6 {
        "Does it create an 'us vs. them' dynamic?"@
    } else if id == 7 {
        "Are questionable 'experts' driving the narrative?"@
    } else if id == 8 {
        "Does it demand immediate decisions without reflection?"@
    } else if id == 9 {
        "Is the event framed as shocking or unprecedented?"@
    } else if id == 10 {
        "Do powerful groups benefit disproportionately?"@
    } else if id == 11 {
        "Are critics silenced or labeled negatively?"@
    } else if id == 12 {
        "Are only two extreme options presented?"@
    } else if id == 13 {
        "Is there pressure to conform because 'everyone is doing it'?"@
    } else if id == 14 {
        "Are the same emotional triggers repeated excessively?"@
    } else if id == 15 {
        "Are statistics presented selectively or out of context?"@
    } else if id == 16 {
        "Are flawed arguments used to dismiss critics?"@
    } else if id == 17 {
        "Does outrage seem sudden or disconnected from facts?"@
    } else if id == 18 {
        "Is the story shaped to control how you perceive it?"@
    } else if id == 19 {
        "Are groups adopting symbols or actions without clear reasoning?"@
    } else if id == 20 {
        "Does the story mirror manipulative past events?"@
    } else {
        Seq::empty()
    }
}

/// The worked example of the category numbered `id`.
pub open spec fn category_example(id: int) -> Seq<char> {
    if id == 1 {
        "A story about water contamination surfaces during a corporate scandal."@
    } else if id == 2 {
        "Reports show crying children and dying wildlife but avoid causes."@
    } else if id == 3 {
        "All outlets use terms like 'unprecedented' and 'avoidable tragedy'."@
    } else if id == 4 {
        "Few sources discuss the timeline or other possible contributors."@
    } else if id == 5 {
        "Blames one company entirely while ignoring systemic issues."@
    } else if id == 6 {
        "Locals are victims, while outsiders are blamed."@
    } else if id == 7 {
        "Non-environmental experts dominate airtime to support policies."@
    } else if id == 8 {
        "Campaigns push for immediate donations and rapid policy changes."@
    } else if id == 9 {
        "Media emphasizes how 'shocking' and 'once-in-a-lifetime' the crisis is."@
    } else if id == 10 {
        "A company offering cleanup services lobbies for government contracts."@
    } else if id == 11 {
        "Opponents dismissed as 'deniers' or ignored."@
    } else if id == 12 {
        "'Either you support this policy, or you don't care about the environment.'"@
    } else if id == 13 {
        "Social media influencers post identical hashtags, urging followers to join."@
    } else if id == 14 {
        "Destruction and suffering imagery looped endlessly on TV and online."@
    } else if id == 15 {
        "Dramatic figures shared without explaining how they were calculated."@
    } else if id == 16 {
        "Critics labeled 'out-of-touch elites' without addressing their points."@
    } else if id == 17 {
        "Viral memes escalate anger quickly with little context provided."@
    } else if id == 18 {
        "The crisis is framed as entirely preventable, ignoring systemic factors."@
    } else if id == 19 {
        "Social media suddenly fills with users adding water droplet emojis to profiles."@
    } else if id == 20 {
        "Past crises were similarly used to pass sweeping, controversial legislation."@
    } else {
        Seq::empty()
    }
}

/// Whether `cats` is the rubric, in order of its numbers.
pub open spec fn is_rubric(cats: Seq<Category>) -> bool {
    &&& cats.len() == 20
    &&& forall|i: int|
        0 <= i < 20 ==> {
            &&& #[trigger] cats[i].id == i + 1
            &&& cats[i].name@ == category_name(i + 1)
            &&& cats[i].question@ == category_question(i + 1)
            &&& cats[i].example@ == category_example(i + 1)
        }
}

/// The twenty categories, numbered 1 to 20 in order.
pub fn categories() -> (cats: Vec<Category>)
    ensures
        is_rubric(cats@),
{
    let mut cats: Vec<Category> = Vec::new();
    cats.push(Category {
        id: 1,
        name: "Timing",
        question: "Does the timing feel suspicious or coincidental with other events?",
        example: "A story about water contamination surfaces during a corporate scandal.",
    });
    cats.push(Category {
        id: 2,
        name: "Emotional Manipulation",
        question: "Does it provoke fear, outrage, or guilt without solid evidence?",
        example: "Reports show crying children and dying wildlife but avoid causes.",
    });
    cats.push(Category {
        id: 3,
        name: "Uniform Messaging",
        question: "Are key phrases or ideas repeated across media?",
        example: "All outlets use terms like 'unprecedented' and 'avoidable tragedy'.",
    });
    cats.push(Category {
        id: 4,
        name: "Missing Information",
        question: "Are alternative views or critical details excluded?",
        example: "Few sources discuss the timeline or other possible contributors.",
    });
    cats.push(Category {
        id: 5,
        name: "Simplistic Narratives",
        question: "Is the story reduced to 'good vs. evil' frameworks?",
        example: "Blames one company entirely while ignoring systemic issues.",
    });
    cats.push(Category {
        id: 6,
        name: "Tribal Division",
        question: "Does it create an 'us vs. them' dynamic?",
        example: "Locals are victims, while outsiders are blamed.",
    });
    cats.push(Category {
        id: 7,
        name: "Authority Overload",
        question: "Are questionable 'experts' driving the narrative?",
        example: "Non-environmental experts dominate airtime to support policies.",
    });
    cats.push(Category {
        id: 8,
        name: "Call for Urgent Action",
        question: "Does it demand immediate decisions without reflection?",
        example: "Campaigns push for immediate donations and rapid policy changes.",
    });
    cats.push(Category {
        id: 9,
        name: "Overuse of Novelty",
        question: "Is the event framed as shocking or unprecedented?",
        example: "Media emphasizes how 'shocking' and 'once-in-a-lifetime' the crisis is.",
    });
    cats.push(Category {
        id: 10,
        name: "Financial/Political Gain",
        question: "Do powerful groups benefit disproportionately?",
        example: "A company offering cleanup services lobbies for government contracts.",
    });
    cats.push(Category {
        id: 11,
        name: "Suppression of Dissent",
        question: "Are critics silenced or labeled negatively?",
        example: "Opponents dismissed as 'deniers' or ignored.",
    });
    cats.push(Category {
        id: 12,
        name: "False Dilemmas",
        question: "Are only two extreme options presented?",
        example: "'Either you support this policy, or you don't care about the environment.'",
    });
    cats.push(Category {
        id: 13,
        name: "Bandwagon Effect",
        question: "Is there pressure to conform because 'everyone is doing it'?",
        example: "Social media influencers post identical hashtags, urging followers to join.",
    });
    cats.push(Category {
        id: 14,
        name: "Emotional Repetition",
        question: "Are the same emotional triggers repeated excessively?",
        example: "Destruction and suffering imagery looped endlessly on TV and online.",
    });
    cats.push(Category {
        id: 15,
        name: "Cherry-Picked Data",
        question: "Are statistics presented selectively or out of context?",
        example: "Dramatic figures shared without explaining how they were calculated.",
    });
    cats.push(Category {
        id: 16,
        name: "Logical Fallacies",
        question: "Are flawed arguments used to dismiss critics?",
        example: "Critics labeled 'out-of-touch elites' without addressing their points.",
    });
    cats.push(Category {
        id: 17,
        name: "Manufactured Outrage",
        question: "Does outrage seem sudden or disconnected from facts?",
        example: "Viral memes escalate anger quickly with little context provided.",
    });
    cats.push(Category {
        id: 18,
        name: "Framing Techniques",
        question: "Is the story shaped to control how you perceive it?",
        example: "The crisis is framed as entirely preventable, ignoring systemic factors.",
    });
    cats.push(Category {
        id: 19,
        name: "Rapid Behavior Shifts",
        question: "Are groups adopting symbols or actions without clear reasoning?",
        example: "Social media suddenly fills with users adding water droplet emojis to profiles.",
    });
    cats.push(Category {
        id: 20,
        name: "Historical Parallels",
        question: "Does the story mirror manipulative past events?",
        example: "Past crises were similarly used to pass sweeping, controversial legislation.",
    });
    cats
}

/// Opening of the instructions sent to the language model, before the list
/// of categories.
pub open spec fn prompt_head() -> Seq<char> {
    "You are an expert analyst applying the NCI Engineered Reality Scoring System. Read the provided article and score it on 20 manipulation categories. For each category output a JSON object with: id (int), score (int 1-5), reasoning (string max 30 words). Return ONLY a JSON array of 20 objects — no markdown fences, no extra text.\n\nScoring: 1 = Not Present, 5 = Overwhelmingly Present.\n\nCategories:\n"@
}

/// The line of the instructions for the category numbered `id`:
/// `"{id}. {name} — {question}\n"`.
pub open spec fn prompt_line(id: int) -> Seq<char> {
    decimal(id as nat) + ". "@ + category_name(id) + " — "@ + category_question(id) + "\n"@
}

/// The lines for categories `1..=n`, in order.
pub open spec fn prompt_lines(n: nat) -> Seq<char>
    decreases n,
{
    if n == 0 {
        Seq::empty()
    } else {
        prompt_lines((n - 1) as nat) + prompt_line(n as int)
    }
}

/// The whole system prompt: the opening, then one line per category.
pub open spec fn system_prompt_text() -> Seq<char> {
    prompt_head() + prompt_lines(20)
}

/// Builds the instructions that tell the language model how to score an
/// article against the rubric.
pub fn system_prompt() -> (r: String)
    ensures
        r@ == system_prompt_text(),
{
    let cats = categories();
    let mut r = String::new();
    push_str(&mut r, "You are an expert analyst applying the NCI Engineered Reality Scoring System. Read the provided article and score it on 20 manipulation categories. For each category output a JSON object with: id (int), score (int 1-5), reasoning (string max 30 words). Return ONLY a JSON array of 20 objects — no markdown fences, no extra text.\n\nScoring: 1 = Not Present, 5 = Overwhelmingly Present.\n\nCategories:\n");
    let mut i: usize = 0;
    while i < cats.len()
        invariant
            is_rubric(cats@),
            i <= cats.len(),
            r@ == prompt_head() + prompt_lines(i as nat),
        decreases cats.len() - i,
    {
        let cat = &cats[i];
        assert(cat.id == i + 1);
        push_decimal(&mut r, cat.id as u32);
        push_str(&mut r, ". ");
        push_str(&mut r, cat.name);
        push_str(&mut r, " — ");
        push_str(&mut r, cat.question);
        push_str(&mut r, "\n");
        assert(r@ == prompt_head() + prompt_lines((i + 1) as nat));
        i = i + 1;
    }
    r
}

/// The name under which a score for category `id` is reported: the
/// category's name, or `"Category {id}"` for a number outside the rubric.
pub open spec fn category_label(id: u8) -> Seq<char> {
    if 1 <= id <= 20 {
        category_name(id as int)
    } else {
        "Category "@ + decimal(id as nat)
    }
}

/// Looks up the name of category `id` in the rubric `cats`.
pub fn category_label_of(cats: &Vec<Category>, id: u8) -> (r: String)
    requires
        is_rubric(cats@),
    ensures
        r@ == category_label(id),
{
    if 1 <= id && id <= 20 {
        let k: usize = (id - 1) as usize;
        assert(cats@[k as int].id == k + 1);
        cats[k].name.to_owned()
    } else {
        let mut r = String::new();
        push_str(&mut r, "Category ");
        push_decimal(&mut r, id as u32);
        r
    }
}

/// The detail text of a category: its number and name, its question and
/// its example.
pub open spec fn detail_text(id: u8, name: Seq<char>, question: Seq<char>, example: Seq<char>) -> Seq<
    char,
> {
    "Category "@ + decimal(id as nat) + "  —  "@ + name + "\n\nQuestion:\n"@ + question
        + "\n\nExample:\n"@ + example
}

/// Writes the detail text of a category.
pub fn category_detail(cat: &Category) -> (r: String)
    ensures
        r@ == detail_text(cat.id, cat.name@, cat.question@, cat.example@),
{
    let mut r = String::new();
    push_str(&mut r, "Category ");
    push_decimal(&mut r, cat.id as u32);
    push_str(&mut r, "  —  ");
    push_str(&mut r, cat.name);
    push_str(&mut r, "\n\nQuestion:\n");
    push_str(&mut r, cat.question);
    push_str(&mut r, "\n\nExample:\n");
    push_str(&mut r, cat.example);
    r
}

/// The head of a row in a list of categories: the number right-aligned in
/// two characters, a dot, and the name left-aligned in `width` characters.
pub open spec fn row_head_text(id: u8, name: Seq<char>, width: nat) -> Seq<char> {
    pad_left(decimal(id as nat), 2) + ". "@ + pad_right(name, width)
}

/// Writes the head of a row for category `id` named `name`.
pub fn row_head(id: u8, name: &str, width: usize) -> (r: String)
    ensures
        r@ == row_head_text(id, name@, width as nat),
{
    let mut num = String::new();
    push_decimal(&mut num, id as u32);
    let digits = chars_of(num.as_str());
    let mut r = String::new();
    if digits.len() < 2 {
        push_spaces(&mut r, 2 - digits.len());
    }
    push_chars(&mut r, &digits);
    push_str(&mut r, ". ");
    let letters = chars_of(name);
    push_chars(&mut r, &letters);
    if letters.len() < width {
        push_spaces(&mut r, width - letters.len());
    }
    r
}

/// The instructions ask the model for scores on the rubric's own scale,
/// 1 to 5, the scale onto which every reply is clamped: they ask for
/// `score (int 1-5), ` and spell out `1 = Not Present, 5 = Overwhelmingly
/// Present`.
pub proof fn lemma_prompt_asks_rubric_scale()
    ensures
        contains_run(system_prompt_text(), "score (int 1-5), "@),
        contains_run(system_prompt_text(), "Scoring: 1 = Not Present, 5 = Overwhelmingly Present."@),
{
    reveal_strlit("You are an expert analyst applying the NCI Engineered Reality Scoring System. Read the provided article and score it on 20 manipulation categories. For each category output a JSON object with: id (int), score (int 1-5), reasoning (string max 30 words). Return ONLY a JSON array of 20 objects — no markdown fences, no extra text.\n\nScoring: 1 = Not Present, 5 = Overwhelmingly Present.\n\nCategories:\n");
    reveal_strlit("score (int 1-5), ");
    reveal_strlit("Scoring: 1 = Not Present, 5 = Overwhelmingly Present.");
    let h = prompt_head();
    let t = system_prompt_text();
    let a = "score (int 1-5), "@;
    let b = "Scoring: 1 = Not Present, 5 = Overwhelmingly Present."@;
    assert(h.len() == 397);
    assert(t.subrange(203, 203 + a.len() as int) == h.subrange(203, 220));
    assert(h.subrange(203, 220) == a);
    assert(t.subrange(330, 330 + b.len() as int) == h.subrange(330, 383));
    assert(h.subrange(330, 383) == b);
}

} // verus!
