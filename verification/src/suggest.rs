//! What to look at first in a project, told from its summary.

use vstd::prelude::*;
use vstd::slice::slice_to_vec;
use vstd::string::StringSliceAdditionalSpecFns;

use crate::excerpt::{digits_of, push_decimal};
use crate::summary::{LanguageCount, ProjectSummary, Summary};
use crate::tally::{counts_view, Count, Tally};

verus! {

/// What a suggestion is about.
#[derive(Clone, Copy, Debug, PartialEq, Eq, Structural)]
pub enum SuggestionKind {
    TodoReview,
    LargeProject,
    LanguageFocus,
    DirectoryOrientation,
    Documentation,
}

impl SuggestionKind {
    /// The label of the kind as a mathematical value.
    pub open spec fn label(self) -> Seq<char> {
        match self {
            SuggestionKind::TodoReview => "todo_review"@,
            SuggestionKind::LargeProject => "large_project"@,
            SuggestionKind::LanguageFocus => "language_focus"@,
            SuggestionKind::DirectoryOrientation => "directory_orientation"@,
            SuggestionKind::Documentation => "documentation"@,
        }
    }

    /// The label of the kind.
    pub fn as_str(&self) -> (r: &'static str)
        ensures
            r@ == self.label(),
    {
        match self {
            SuggestionKind::TodoReview => "todo_review",
            SuggestionKind::LargeProject => "large_project",
            SuggestionKind::LanguageFocus => "language_focus",
            SuggestionKind::DirectoryOrientation => "directory_orientation",
            SuggestionKind::Documentation => "documentation",
        }
    }
}

/// A suggestion as a mathematical value.
pub struct Advice {
    pub kind: SuggestionKind,
    pub message: Seq<u8>,
}

/// One thing to look at, with the words in which it is put.
pub struct Suggestion {
    pub kind: SuggestionKind,
    pub message: Vec<u8>,
}

impl View for Suggestion {
    type V = Advice;

    open spec fn view(&self) -> Advice {
        Advice { kind: self.kind, message: self.message@ }
    }
}

/// The suggestions that a vector holds.
pub open spec fn advice_view(v: Seq<Suggestion>) -> Seq<Advice> {
    v.map_values(|s: Suggestion| s@)
}

/// The names of `counts`, with a comma and a blank between them.
pub open spec fn joined_names(counts: Seq<Count>) -> Seq<u8>
    decreases counts.len(),
{
    if counts.len() == 0 {
        Seq::empty()
    } else if counts.len() == 1 {
        counts[0].name
    } else {
        joined_names(counts.drop_last()) + ", ".spec_bytes() + counts.last().name
    }
}

/// The suggestion to go through the notes to self.
pub open spec fn todo_advice(count: nat) -> Advice {
    Advice {
        kind: SuggestionKind::TodoReview,
        message: "Review approximately ".spec_bytes() + digits_of(count)
            + " TODO/FIXME markers before modifying code".spec_bytes(),
    }
}

/// The suggestion to narrow the scope of a large project.
pub open spec fn large_project_advice() -> Advice {
    Advice {
        kind: SuggestionKind::LargeProject,
        message: "Project is large; consider narrowing scope or running targeted symbol searches.".spec_bytes(),
    }
}

/// The suggestion that names the language with the most files.
pub open spec fn language_advice(primary: LanguageCount) -> Advice {
    Advice {
        kind: SuggestionKind::LanguageFocus,
        message: "Primary language detected: ".spec_bytes() + primary.language + " (.".spec_bytes()
            + primary.extension + ")".spec_bytes(),
    }
}

/// The suggestion that names the directories with the most files.
pub open spec fn directory_advice(directories: Seq<Count>) -> Advice {
    Advice {
        kind: SuggestionKind::DirectoryOrientation,
        message: "Key areas to inspect: ".spec_bytes() + joined_names(directories),
    }
}

/// The suggestion to ask about a project that has no README.
pub open spec fn documentation_advice() -> Advice {
    Advice {
        kind: SuggestionKind::Documentation,
        message: "No README detected at the project root; confirm setup expectations with maintainers.".spec_bytes(),
    }
}

/// `one` when `wanted`, and nothing otherwise.
pub open spec fn advice_if(wanted: bool, one: Advice) -> Seq<Advice> {
    if wanted {
        seq![one]
    } else {
        Seq::empty()
    }
}

/// The suggestions that a summary gives rise to, in this order: to go
/// through the notes to self, if there are any; to narrow the scope, if the
/// walk ended early; the language with the most files, if there is one; the
/// directories with the most files, if there are any; and to ask about the
/// setup, if there is no README.
pub open spec fn suggestions_for(summary: Summary) -> Seq<Advice> {
    advice_if(summary.todo_count > 0, todo_advice(summary.todo_count)) + advice_if(
        summary.scan_truncated,
        large_project_advice(),
    ) + advice_if(
        summary.dominant_languages.len() > 0,
        language_advice(summary.dominant_languages[0]),
    ) + advice_if(summary.top_directories.len() > 0, directory_advice(summary.top_directories))
        + advice_if(summary.readme_excerpt is None, documentation_advice())
}

/// The names of `tallies`, with a comma and a blank between them.
fn join_names(out: &mut Vec<u8>, tallies: &Vec<Tally>)
    ensures
        final(out)@ == old(out)@ + joined_names(counts_view(tallies@)),
{
    let ghost all = counts_view(tallies@);
    let ghost start = out@;
    let mut i: usize = 0;
    proof {
        assert(all.take(0) =~= Seq::<Count>::empty());
        assert(start + Seq::<u8>::empty() =~= start);
    }
    while i < tallies.len()
        invariant
            i <= tallies@.len(),
            all == counts_view(tallies@),
            out@ == start + joined_names(all.take(i as int)),
        decreases tallies.len() - i,
    {
        if i > 0 {
            out.extend_from_slice(", ".as_bytes());
        }
        out.extend_from_slice(tallies[i].name.as_slice());
        proof {
            let done = all.take(i + 1);
            assert(done.drop_last() =~= all.take(i as int));
            assert(done.last() == tallies@[i as int]@);
            if i == 0 {
                assert(done[0] == tallies@[0]@);
            }
            assert(out@ =~= start + joined_names(done));
        }
        i += 1;
    }
    proof {
        assert(all.take(tallies@.len() as int) =~= all);
    }
}

/// Makes the suggestions that a summary gives rise to.
pub fn build_conversation_suggestions(summary: &ProjectSummary) -> (r: Vec<Suggestion>)
    ensures
        advice_view(r@) == suggestions_for(summary@),
{
    let mut suggestions: Vec<Suggestion> = Vec::new();
    let ghost s = summary@;
    let ghost a1 = advice_if(s.todo_count > 0, todo_advice(s.todo_count));
    let ghost a2 = advice_if(s.scan_truncated, large_project_advice());
    let ghost a3 = advice_if(
        s.dominant_languages.len() > 0,
        language_advice(s.dominant_languages[0]),
    );
    let ghost a4 = advice_if(s.top_directories.len() > 0, directory_advice(s.top_directories));
    let ghost a5 = advice_if(s.readme_excerpt is None, documentation_advice());
    if summary.todo_count > 0 {
        let mut message = slice_to_vec("Review approximately ".as_bytes());
        push_decimal(&mut message, summary.todo_count);
        message.extend_from_slice(" TODO/FIXME markers before modifying code".as_bytes());
        assert(message@ =~= todo_advice(s.todo_count).message);
        suggestions.push(Suggestion { kind: SuggestionKind::TodoReview, message });
    }
    assert(advice_view(suggestions@) =~= a1);
    if summary.scan_truncated {
        let message = slice_to_vec(
            "Project is large; consider narrowing scope or running targeted symbol searches.".as_bytes(),
        );
        suggestions.push(Suggestion { kind: SuggestionKind::LargeProject, message });
    }
    assert(advice_view(suggestions@) =~= a1 + a2);
    if summary.dominant_languages.len() > 0 {
        let primary = &summary.dominant_languages[0];
        let mut message = slice_to_vec("Primary language detected: ".as_bytes());
        message.extend_from_slice(primary.language.as_slice());
        message.extend_from_slice(" (.".as_bytes());
        message.extend_from_slice(primary.extension.as_slice());
        message.extend_from_slice(")".as_bytes());
        proof {
            assert(s.dominant_languages[0] == primary@);
            assert(message@ =~= language_advice(s.dominant_languages[0]).message);
        }
        suggestions.push(Suggestion { kind: SuggestionKind::LanguageFocus, message });
    }
    assert(advice_view(suggestions@) =~= a1 + a2 + a3);
    if summary.top_directories.len() > 0 {
        let mut message = slice_to_vec("Key areas to inspect: ".as_bytes());
        join_names(&mut message, &summary.top_directories);
        assert(message@ =~= directory_advice(s.top_directories).message);
        suggestions.push(Suggestion { kind: SuggestionKind::DirectoryOrientation, message });
    }
    assert(advice_view(suggestions@) =~= a1 + a2 + a3 + a4);
    if summary.readme_excerpt.is_none() {
        let message = slice_to_vec(
            "No README detected at the project root; confirm setup expectations with maintainers.".as_bytes(),
        );
        suggestions.push(Suggestion { kind: SuggestionKind::Documentation, message });
    }
    assert(advice_view(suggestions@) =~= a1 + a2 + a3 + a4 + a5);
    suggestions
}

} // verus!
