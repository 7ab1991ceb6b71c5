use vstd::prelude::*;
use vstd::string::StringExecFns;

verus! {

/// A syntax highlighter for code blocks in the colours of a theme: it wraps the highlighted
/// code in `pre` and `code` tags, the `pre` tag carrying the theme's background and
/// foreground colours.
#[derive(Debug, Clone)]
pub struct Inkjet {
    background: String,
    foreground: String,
}

impl Inkjet {
    /// The theme's background colour (as CSS hex).
    pub closed spec fn background(self) -> Seq<char> {
        self.background@
    }

    /// The theme's foreground colour (as CSS hex).
    pub closed spec fn foreground(self) -> Seq<char> {
        self.foreground@
    }

    /// A highlighter for a theme with the given background and foreground colours.
    pub fn new(background: String, foreground: String) -> (inkjet: Self)
        ensures
            inkjet.background() == background@,
            inkjet.foreground() == foreground@,
    {
        Inkjet { background, foreground }
    }

    /// What comes before highlighted code: a `pre` tag in the theme's colours, then a `code`
    /// tag.
    pub fn start(&self) -> (tags: String)
        ensures
            tags@ == "<pre style=\"background-color: "@ + self.background() + "; color: "@
                + self.foreground() + ";\"><code>"@,
    {
        let mut tags = "<pre style=\"background-color: ".to_owned();
        tags.append(self.background.as_str());
        tags.append("; color: ");
        tags.append(self.foreground.as_str());
        tags.append(";\"><code>");
        tags
    }

    /// What comes after highlighted code: the closing `code` and `pre` tags.
    pub fn finish(&self) -> (tags: String)
        ensures
            tags@ == "</code></pre>"@,
    {
        "</code></pre>".to_owned()
    }
}

} // verus!
