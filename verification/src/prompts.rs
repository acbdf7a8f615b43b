//! Prompts given to the completion model.
use crate::text::{contains, occurs_at, replace, replace_all, starts_with};
use vstd::prelude::*;

verus! {

/// The metadata of a video as the model receives it; `{title}` stands for the video's title.
pub const METADATA_TEMPLATE: &'static str = "<videoMetadata>\n<title>{title}</title>\n</videoMetadata>";

/// The placeholder of the title in the templates.
pub const TITLE_PLACEHOLDER: &'static str = "{title}";

/// What comes before the title in the metadata template.
pub open spec fn metadata_prefix() -> Seq<char> {
    "<videoMetadata>\n<title>"@
}

/// What comes after the title in the metadata template.
pub open spec fn metadata_suffix() -> Seq<char> {
    "</title>\n</videoMetadata>"@
}

/// The context of a video that the prompts are rendered with.
#[derive(Debug, Clone)]
pub struct PromptContext {
    title: String,
}

impl View for PromptContext {
    type V = Seq<char>;

    /// The title of the video.
    closed spec fn view(&self) -> Seq<char> {
        self.title@
    }
}

impl PromptContext {
    /// The system prompt for summarizing a whole transcript at once.
    pub const ONESHOT_SUMMARY: &'static str = r#"Act as the author and provide a comprehensive detailed article

- Use this markdown format

<formattingExample>
# Title

## Summary

1 sentence summary to summarize whole video

## Subheading 1

- point 1
- point 2

## Subheading 2

brief sentence

- point 1
- point 2
- point 3

</formattingExample>

- In English
- Concise and to the point
- no flowery language
- use brief sentences and bullets instead of paragraphs
- do not include links
- summary should be informative and act as a replacement for the original transcript to the point that the user doesn't have to go back to read the transcript
- Summary should not mention the author, speaker, or article
- should act as independent writing without referencing the original

<badExample>
This deep dive explores advanced TypeScript type system concepts to implement compile-time addition using types only—covering generics, conditionals, recursion, variadic tuple types, inference, mapped types, and string manipulation to simulate number operations at the type level.

</badExample>

<goodExample>
# Type-Level Addition in TypeScript

## Summary

Learn how to write complex programs on the Type Level by Adding on the type level

```ts
Add<1, 2>; // 3
```

## No JavaScript Allowed

There is no runtime representation for our code—everything will run at compile time

Instead of function parameters, Generics and Type parameters are used

```js
function generic(t) = ...
type Generic<T> = ...
```

## Building Blocks

Prerequisites before the addition demo

- Generics: Represent parameters for types (e.g., `Array<T>`)
- Constraints: Enforce types (e.g., `T extends string`)
- Conditional Types: Enable logic like `T extends true ? A : B`
- Mapped Types: Transform every key in a type (e.g., map values)
- Variadic Tuples: Spread tuple types with `[...A, ...B]`
- Infer: Extract subtypes inside conditionals
- Recursion: used for iteration

## Exercises

- And<T, U>: Returns true only if both are true
- Last<T>: Gets last element in a tuple
- Pop<T>: Returns a tuple without the last element

</goodExample>
"#;

    /// The system prompt for summarizing one chunk of a long transcript.
    pub const CHUNKED_SUMMARY: &'static str = r#"You receive the metadata of a video and one chunk of its transcript.
The transcript was split into overlapping chunks because it is too long to read at once.

- Summarize only this chunk
- Keep every point, fact, name, number and example that the chunk contains
- Use brief sentences and bullets instead of paragraphs
- In English
- Do not mention the chunk, the transcript, the author or the speaker
- Do not include links
"#;

    /// The system prompt for combining the summaries of all chunks into one article.
    pub const CHUNKED_COMBINE: &'static str = r#"You receive the metadata of a video and the summaries of the consecutive chunks of its transcript, each headed `chunk <i>/<n>`.
Neighbouring chunks overlap, so the same point may appear in two summaries: mention it once.

Act as the author and combine them into one comprehensive detailed article

- Use this markdown format

<formattingExample>
# Title

## Summary

1 sentence summary to summarize whole video

## Subheading 1

- point 1
- point 2

</formattingExample>

- In English
- Concise and to the point
- no flowery language
- use brief sentences and bullets instead of paragraphs
- do not include links
- Summary should not mention the author, speaker, article or chunks
- should act as independent writing without referencing the original
"#;

    /// A context for the video titled `title`.
    pub fn new(title: &str) -> (ctx: Self)
        ensures
            ctx@ == title@,
    {
        Self { title: String::from_str(title) }
    }

    /// `template` with every `{title}` replaced by the title.
    fn render(&self, template: &str) -> (out: String)
        ensures
            out@ == replace_all(template@, TITLE_PLACEHOLDER@, self@),
    {
        proof {
            reveal_strlit("{title}");
        }
        replace(template, TITLE_PLACEHOLDER, self.title.as_str())
    }

    /// The metadata of the video, rendered for the model.
    pub fn metadata(&self) -> (out: String)
        ensures
            out@ == metadata_prefix() + self@ + metadata_suffix(),
    {
        let out = self.render(METADATA_TEMPLATE);
        proof {
            lemma_metadata_template(self@);
        }
        out
    }
}

/// Replacing leaves a text alone up to the first character that could begin the pattern.
proof fn lemma_replace_skips(a: Seq<char>, b: Seq<char>, pat: Seq<char>, rep: Seq<char>)
    requires
        pat.len() > 0,
        forall|i: int| 0 <= i < a.len() ==> a[i] != pat[0],
    ensures
        replace_all(a + b, pat, rep) == a + replace_all(b, pat, rep),
    decreases a.len(),
{
    if a.len() > 0 {
        let ab = a + b;
        assert(ab[0] == a[0]);
        assert(!starts_with(ab, pat)) by {
            if starts_with(ab, pat) {
                assert(ab.take(pat.len() as int)[0] == pat[0]);
            }
        }
        assert(ab.drop_first() =~= a.drop_first() + b);
        lemma_replace_skips(a.drop_first(), b, pat, rep);
        assert(seq![a[0]] + (a.drop_first() + replace_all(b, pat, rep)) =~= a + replace_all(
            b,
            pat,
            rep,
        ));
    } else {
        assert(a + b =~= b);
        assert(a + replace_all(b, pat, rep) =~= replace_all(b, pat, rep));
    }
}

/// The metadata template is its prefix, the placeholder and its suffix, and rendering it puts
/// the title between the two.
proof fn lemma_metadata_template(title: Seq<char>)
    ensures
        replace_all(METADATA_TEMPLATE@, TITLE_PLACEHOLDER@, title) == metadata_prefix() + title
            + metadata_suffix(),
{
    reveal_strlit("<videoMetadata>\n<title>{title}</title>\n</videoMetadata>");
    reveal_strlit("{title}");
    reveal_strlit("<videoMetadata>\n<title>");
    reveal_strlit("</title>\n</videoMetadata>");
    let pre = metadata_prefix();
    let pat = TITLE_PLACEHOLDER@;
    let post = metadata_suffix();
    assert(METADATA_TEMPLATE@ =~= pre + (pat + post));
    lemma_replace_skips(pre, pat + post, pat, title);
    assert((pat + post).take(pat.len() as int) =~= pat);
    assert((pat + post).skip(pat.len() as int) =~= post + Seq::<char>::empty());
    lemma_replace_skips(post, Seq::<char>::empty(), pat, title);
    assert(replace_all(Seq::<char>::empty(), pat, title) =~= Seq::<char>::empty());
    assert(pre + (title + (post + Seq::<char>::empty())) =~= pre + title + post);
}

/// Law: the rendered metadata contains the title, and where the title holds no `{`, no
/// `{title}` placeholder is left in it.
pub proof fn lemma_metadata_shows_title(ctx: PromptContext)
    ensures
        contains(metadata_prefix() + ctx@ + metadata_suffix(), ctx@),
        (forall|i: int| 0 <= i < ctx@.len() ==> ctx@[i] != '{') ==> !contains(
            metadata_prefix() + ctx@ + metadata_suffix(),
            TITLE_PLACEHOLDER@,
        ),
{
    reveal_strlit("{title}");
    reveal_strlit("<videoMetadata>\n<title>");
    reveal_strlit("</title>\n</videoMetadata>");
    let pre = metadata_prefix();
    let post = metadata_suffix();
    let t = ctx@;
    let out = pre + t + post;
    assert(out.subrange(pre.len() as int, (pre.len() + t.len()) as int) =~= t);
    assert(occurs_at(out, t, pre.len() as int));
    if forall|i: int| 0 <= i < t.len() ==> t[i] != '{' {
        assert forall|j: int| !occurs_at(out, TITLE_PLACEHOLDER@, j) by {
            if occurs_at(out, TITLE_PLACEHOLDER@, j) {
                assert(out.subrange(j, j + 7)[0] == '{');
                assert(out[j] == '{');
                if j < pre.len() {
                    assert(out[j] == pre[j]);
                } else if j < pre.len() + t.len() {
                    assert(out[j] == t[j - pre.len()]);
                } else {
                    assert(out[j] == post[j - pre.len() - t.len()]);
                }
            }
        }
    }
}

} // verus!
