//! Which LaTeX texts `latex2mathml` can be handed.
//!
//! `latex2mathml` reads `\middle` as a stretched delimiter: it reads the node that follows
//! and stops the program unless that node is an operator or a parenthesis. Its lexer makes a
//! command of a backslash and the character after it, and of the letters that follow that
//! character where it is a letter; so a `\middle` stands in a text where a backslash that is
//! preceded by an even number of backslashes starts the word `middle`, with no letter after it.
//! What follows, past white space, is an operator or a parenthesis exactly when it is
//! - one of the characters the lexer reads alone as one (`:=` counts as one), or `\{`, `\}`,
//!   `\|`, or a command the lexer reads as one (`DELIMITER_COMMANDS`), and what comes after it
//!   is not a prime (`'`), which would make it a superscript; or
//! - a big operator or integral (`BIG_OPERATOR_COMMANDS`) with no subscript, superscript or
//!   prime after it; or
//! - a brace group that holds one of these and nothing else, with no prime after it.
//! A brace group that holds another such group (`{{|}}`) is read as one node too; texts with
//! such nested groups after `\middle` are refused here, though `latex2mathml` converts them.

use vstd::prelude::*;

use crate::text::chars_of;

verus! {

/// The commands that `latex2mathml`'s lexer reads as an operator or a parenthesis, each
/// between spaces.
pub const DELIMITER_COMMANDS: &'static str = " langle rangle lceil rceil lfloor rfloor lgroup rgroup llbracket rrbracket times \
    oplus ominus otimes oslash odot bigcirc amalg pm mp cdot cdots vdots ldots ddots \
    circ bullet star div lnot land lor sim simeq nsim cong approx ne neq equiv nequiv \
    prec succ preceq succeq dashv asymp doteq propto barwedge ltimes rtimes Join lhd \
    rhd unlhd unrhd vee uplus wedge boxdot boxplus boxminus boxtimes boxbox boxslash \
    boxbslash Cap Cup centerdot circledast circledcirc circleddash curlyvee curlywedge \
    dotplus intercal divideontimes leftthreetimes rightthreetimes smallsetminus \
    triangledown triangleleft triangleright vartriangle veebar cap cup mid nmid \
    parallel perp forall exists nexists lt gt leq geq ll gg lessapprox lesssim \
    eqslantless leqslant leqq geqq geqslant eqslantgtr gtrsim gtrapprox approxeq \
    lessdot lll lessgtr lesseqgtr lesseqqgtr doteqdot risingdotseq leftarrow gets \
    rightarrow to nleftarrow nrightarrow leftrightarrow nleftrightarrow longleftarrow \
    longrightarrow longleftrightarrow Leftarrow Rightarrow nLeftarrow nRightarrow \
    Leftrightarrow nLeftrightarrow Longleftarrow impliedby Longrightarrow implies \
    Longleftrightarrow iff uparrow downarrow updownarrow Uparrow Downarrow Updownarrow \
    nearrow searrow swarrow nwarrow rightharpoonup rightharpoondown leftharpoonup \
    leftharpoondown upharpoonleft upharpoonright downharpoonleft downharpoonright \
    rightleftharpoons leftrightharpoons curvearrowleft circlearrowleft Lsh upuparrows \
    rightrightarrows rightleftarrows Rrightarrow rightarrowtail looparrowright \
    curvearrowright circlearrowright Rsh downdownarrows leftleftarrows leftrightarrows \
    Lleftarrow leftarrowtail looparrowleft mapsto longmapsto hookrightarrow \
    hookleftarrow multimap leftrightsquigarrow rightsquigarrow lightning Yleft Yright \
    in ni notin subset supset subseteq supseteq nsubseteq nsupseteq subsetneq supsetneq \
    sqsubset sqsubseteq sqsupset sqsupseteq sqcap sqcup setminus partial nabla smile \
    from wr bot top vdash vDash Vdash models ";

/// The commands that `latex2mathml`'s lexer reads as a big operator or an integral, each
/// between spaces.
pub const BIG_OPERATOR_COMMANDS: &'static str = " int iint iiint oint sum prod coprod bigcap bigcup bigsqcup bigvee bigwedge bigodot \
    bitotimes bigoplus biguplus ";

/// The white space that `latex2mathml`'s lexer skips between tokens.
pub open spec fn latex_space(c: char) -> bool {
    c == ' ' || c == '\t' || c == '\n' || c == '\r'
}

/// An ASCII letter, which continues a LaTeX command's name.
pub open spec fn ascii_letter(c: char) -> bool {
    ('a' <= c && c <= 'z') || ('A' <= c && c <= 'Z')
}

/// A character that `latex2mathml`'s lexer reads on its own as an operator or a parenthesis.
pub open spec fn delimiter_char(c: char) -> bool {
    c == '=' || c == ';' || c == ',' || c == '.' || c == '\'' || c == '(' || c == ')' || c == '['
        || c == ']' || c == '|' || c == '+' || c == '-' || c == '*' || c == '/' || c == '!' || c
        == '<' || c == '>' || c == ':'
}

/// The first position from `i` on that is not white space (the length if there is none).
pub open spec fn skip_spaces(s: Seq<char>, i: int) -> int
    decreases s.len() - i,
{
    if 0 <= i < s.len() && latex_space(s[i]) {
        skip_spaces(s, i + 1)
    } else {
        i
    }
}

/// The number of backslashes right before position `i`.
pub open spec fn backslashes_before(s: Seq<char>, i: int) -> nat
    decreases i,
{
    if 0 < i <= s.len() && s[i - 1] == '\\' {
        1 + backslashes_before(s, i - 1)
    } else {
        0
    }
}

/// Whether the command `\middle` starts at position `i`.
pub open spec fn middle_at(s: Seq<char>, i: int) -> bool {
    &&& 0 <= i
    &&& i + 7 <= s.len()
    &&& backslashes_before(s, i) % 2 == 0
    &&& s[i] == '\\' && s[i + 1] == 'm' && s[i + 2] == 'i' && s[i + 3] == 'd'
    &&& s[i + 4] == 'd' && s[i + 5] == 'l' && s[i + 6] == 'e'
    &&& !(i + 7 < s.len() && ascii_letter(s[i + 7]))
}

/// The end of the run of ASCII letters that starts at position `i`.
pub open spec fn letters_end(s: Seq<char>, i: int) -> int
    decreases s.len() - i,
{
    if 0 <= i < s.len() && ascii_letter(s[i]) {
        letters_end(s, i + 1)
    } else {
        i
    }
}

/// Whether the word stands at position `i` of the list, between spaces.
pub open spec fn word_at(list: Seq<char>, i: int, word: Seq<char>) -> bool {
    &&& 0 <= i
    &&& i + word.len() + 2 <= list.len()
    &&& list[i] == ' '
    &&& list[i + word.len() + 1] == ' '
    &&& list.subrange(i + 1, i + word.len() + 1) == word
}

/// Whether the word is one of the space-separated words of the list.
pub open spec fn listed(list: Seq<char>, word: Seq<char>) -> bool {
    exists|i: int| #[trigger] word_at(list, i, word)
}

/// Where the command that starts at position `k` ends, if it is a backslash and a letter and
/// its name is listed.
pub open spec fn listed_command_end(s: Seq<char>, k: int, list: Seq<char>) -> Option<int> {
    if 0 <= k && k + 1 < s.len() && s[k] == '\\' && ascii_letter(s[k + 1]) && listed(
        list,
        s.subrange(k + 1, letters_end(s, k + 1)),
    ) {
        Some(letters_end(s, k + 1))
    } else {
        None
    }
}

/// Where the operator or parenthesis that starts at position `k` ends; nothing where none
/// starts there.
pub open spec fn delimiter_end(s: Seq<char>, k: int) -> Option<int> {
    if !(0 <= k < s.len()) {
        None
    } else if delimiter_char(s[k]) {
        Some(
            if s[k] == ':' && k + 1 < s.len() && s[k + 1] == '=' {
                k + 2
            } else {
                k + 1
            },
        )
    } else if s[k] == '\\' && k + 1 < s.len() && (s[k + 1] == '{' || s[k + 1] == '}' || s[k + 1]
        == '|') {
        Some(k + 2)
    } else {
        listed_command_end(s, k, DELIMITER_COMMANDS@)
    }
}

/// Whether the token after position `end` is one of the given characters.
pub open spec fn followed_by(s: Seq<char>, end: int, a: char, b: char, c: char) -> bool {
    let next = skip_spaces(s, end);
    next < s.len() && (s[next] == a || s[next] == b || s[next] == c)
}

/// Where the operator, parenthesis or big operator that starts at position `k` ends; nothing
/// where none starts there.
pub open spec fn operator_end(s: Seq<char>, k: int) -> Option<int> {
    match delimiter_end(s, k) {
        Some(end) => Some(end),
        None => listed_command_end(s, k, BIG_OPERATOR_COMMANDS@),
    }
}

/// Where the brace group that starts at position `k` ends, if it holds one operator,
/// parenthesis or big operator and nothing else.
pub open spec fn group_end(s: Seq<char>, k: int) -> Option<int> {
    if 0 <= k < s.len() && s[k] == '{' {
        match operator_end(s, skip_spaces(s, k + 1)) {
            Some(end) => {
                let close = skip_spaces(s, end);
                if close < s.len() && s[close] == '}' {
                    Some(close + 1)
                } else {
                    None
                }
            },
            None => None,
        }
    } else {
        None
    }
}

/// Whether the `\middle` at position `i` is followed by an operator or a parenthesis.
pub open spec fn middle_delimited(s: Seq<char>, i: int) -> bool {
    let k = skip_spaces(s, i + 7);
    ||| delimiter_end(s, k) matches Some(end) && !followed_by(s, end, '\'', '\'', '\'')
    ||| listed_command_end(s, k, BIG_OPERATOR_COMMANDS@) matches Some(end) && !followed_by(
        s,
        end,
        '\'',
        '_',
        '^',
    )
    ||| group_end(s, k) matches Some(end) && !followed_by(s, end, '\'', '\'', '\'')
}

/// Whether `latex2mathml` can be handed the text: every `\middle` in it is delimited.
pub open spec fn supported_latex(s: Seq<char>) -> bool {
    forall|i: int| 0 <= i < s.len() && #[trigger] middle_at(s, i) ==> middle_delimited(s, i)
}

fn is_latex_space(c: char) -> (b: bool)
    ensures
        b == latex_space(c),
{
    c == ' ' || c == '\t' || c == '\n' || c == '\r'
}

fn is_ascii_letter(c: char) -> (b: bool)
    ensures
        b == ascii_letter(c),
{
    ('a' <= c && c <= 'z') || ('A' <= c && c <= 'Z')
}

fn is_delimiter_char(c: char) -> (b: bool)
    ensures
        b == delimiter_char(c),
{
    c == '=' || c == ';' || c == ',' || c == '.' || c == '\'' || c == '(' || c == ')' || c == '['
        || c == ']' || c == '|' || c == '+' || c == '-' || c == '*' || c == '/' || c == '!' || c
        == '<' || c == '>' || c == ':'
}

fn skip_spaces_from(chars: &Vec<char>, i: usize) -> (k: usize)
    requires
        i <= chars.len(),
    ensures
        k as int == skip_spaces(chars@, i as int),
        i <= k <= chars.len(),
{
    let mut k = i;
    while k < chars.len() && is_latex_space(chars[k])
        invariant
            i <= k <= chars.len(),
            skip_spaces(chars@, i as int) == skip_spaces(chars@, k as int),
        decreases chars.len() - k,
    {
        k = k + 1;
    }
    k
}

fn letters_end_from(chars: &Vec<char>, i: usize) -> (end: usize)
    requires
        i <= chars.len(),
    ensures
        end as int == letters_end(chars@, i as int),
        i <= end <= chars.len(),
{
    let mut end = i;
    while end < chars.len() && is_ascii_letter(chars[end])
        invariant
            i <= end <= chars.len(),
            letters_end(chars@, i as int) == letters_end(chars@, end as int),
        decreases chars.len() - end,
    {
        end = end + 1;
    }
    end
}

/// Whether the characters of `chars` from `start` to `end` stand at position `i` of the
/// list, between spaces.
fn is_word_at(list: &Vec<char>, i: usize, chars: &Vec<char>, start: usize, end: usize) -> (b: bool)
    requires
        start <= end <= chars.len(),
    ensures
        b == word_at(list@, i as int, chars@.subrange(start as int, end as int)),
{
    let len = end - start;
    if i >= list.len() || list.len() - i < 2 || list.len() - i - 2 < len {
        return false;
    }
    if list[i] != ' ' || list[i + len + 1] != ' ' {
        return false;
    }
    let ghost word = chars@.subrange(start as int, end as int);
    let mut j: usize = 0;
    while j < len
        invariant
            len == end - start,
            start <= end <= chars.len(),
            i + len + 2 <= list.len(),
            word == chars@.subrange(start as int, end as int),
            j <= len,
            forall|m: int| 0 <= m < j ==> list@[i + 1 + m] == #[trigger] word[m],
        decreases len - j,
    {
        if list[i + 1 + j] != chars[start + j] {
            assert(list@.subrange(i + 1, i + len + 1)[j as int] != word[j as int]);
            return false;
        }
        j = j + 1;
    }
    assert(list@.subrange(i + 1, i + len + 1) =~= word);
    true
}

/// Whether the characters of `chars` from `start` to `end` are one of the words of the list.
fn is_listed(list: &str, chars: &Vec<char>, start: usize, end: usize) -> (b: bool)
    requires
        start <= end <= chars.len(),
    ensures
        b == listed(list@, chars@.subrange(start as int, end as int)),
{
    let words = chars_of(list);
    let ghost word = chars@.subrange(start as int, end as int);
    let mut i: usize = 0;
    while i < words.len()
        invariant
            words@ == list@,
            i <= words.len(),
            word == chars@.subrange(start as int, end as int),
            start <= end <= chars.len(),
            forall|m: int| 0 <= m < i ==> !#[trigger] word_at(list@, m, word),
        decreases words.len() - i,
    {
        if is_word_at(&words, i, chars, start, end) {
            return true;
        }
        i = i + 1;
    }
    assert forall|m: int| !#[trigger] word_at(list@, m, word) by {
        if 0 <= m && m >= i {
            assert(m + word.len() + 2 > list@.len());
        }
    }
    false
}

fn listed_command_end_at(chars: &Vec<char>, k: usize, list: &str) -> (end: Option<usize>)
    requires
        k <= chars.len(),
    ensures
        match end {
            Some(e) => listed_command_end(chars@, k as int, list@) == Some(e as int) && e
                <= chars.len(),
            None => listed_command_end(chars@, k as int, list@) is None,
        },
{
    if k >= chars.len() || k + 1 >= chars.len() || chars[k] != '\\' || !is_ascii_letter(chars[k + 1]) {
        return None;
    }
    let e = letters_end_from(chars, k + 1);
    if is_listed(list, chars, k + 1, e) {
        Some(e)
    } else {
        None
    }
}

fn delimiter_end_at(chars: &Vec<char>, k: usize) -> (end: Option<usize>)
    requires
        k <= chars.len(),
    ensures
        match end {
            Some(e) => delimiter_end(chars@, k as int) == Some(e as int) && e <= chars.len(),
            None => delimiter_end(chars@, k as int) is None,
        },
{
    let n = chars.len();
    if k >= n {
        return None;
    }
    if is_delimiter_char(chars[k]) {
        if chars[k] == ':' && k + 1 < n && chars[k + 1] == '=' {
            return Some(k + 2);
        }
        return Some(k + 1);
    }
    if chars[k] == '\\' && k + 1 < n && (chars[k + 1] == '{' || chars[k + 1] == '}' || chars[k
        + 1] == '|') {
        return Some(k + 2);
    }
    listed_command_end_at(chars, k, DELIMITER_COMMANDS)
}

fn is_followed_by(chars: &Vec<char>, end: usize, a: char, b: char, c: char) -> (f: bool)
    requires
        end <= chars.len(),
    ensures
        f == followed_by(chars@, end as int, a, b, c),
{
    let next = skip_spaces_from(chars, end);
    next < chars.len() && (chars[next] == a || chars[next] == b || chars[next] == c)
}

fn is_middle_at(chars: &Vec<char>, i: usize, backslashes: usize) -> (b: bool)
    requires
        i < chars.len(),
        backslashes == backslashes_before(chars@, i as int),
    ensures
        b == middle_at(chars@, i as int),
{
    let n = chars.len();
    if n - i < 7 || backslashes % 2 != 0 {
        return false;
    }
    let named = chars[i] == '\\' && chars[i + 1] == 'm' && chars[i + 2] == 'i' && chars[i + 3]
        == 'd' && chars[i + 4] == 'd' && chars[i + 5] == 'l' && chars[i + 6] == 'e';
    if !named {
        return false;
    }
    !(i + 7 < n && is_ascii_letter(chars[i + 7]))
}

fn operator_end_at(chars: &Vec<char>, k: usize) -> (end: Option<usize>)
    requires
        k <= chars.len(),
    ensures
        match end {
            Some(e) => operator_end(chars@, k as int) == Some(e as int) && e <= chars.len(),
            None => operator_end(chars@, k as int) is None,
        },
{
    match delimiter_end_at(chars, k) {
        Some(end) => Some(end),
        None => listed_command_end_at(chars, k, BIG_OPERATOR_COMMANDS),
    }
}

fn group_end_at(chars: &Vec<char>, k: usize) -> (end: Option<usize>)
    requires
        k <= chars.len(),
    ensures
        match end {
            Some(e) => group_end(chars@, k as int) == Some(e as int) && e <= chars.len(),
            None => group_end(chars@, k as int) is None,
        },
{
    if k >= chars.len() || chars[k] != '{' {
        return None;
    }
    let inner = skip_spaces_from(chars, k + 1);
    match operator_end_at(chars, inner) {
        Some(end) => {
            let close = skip_spaces_from(chars, end);
            if close < chars.len() && chars[close] == '}' {
                Some(close + 1)
            } else {
                None
            }
        },
        None => None,
    }
}

fn is_middle_delimited(chars: &Vec<char>, i: usize) -> (b: bool)
    requires
        i + 7 <= chars.len(),
    ensures
        b == middle_delimited(chars@, i as int),
{
    let k = skip_spaces_from(chars, i + 7);
    let delimited = match delimiter_end_at(chars, k) {
        Some(end) => !is_followed_by(chars, end, '\'', '\'', '\''),
        None => false,
    };
    if delimited {
        return true;
    }
    let big = match listed_command_end_at(chars, k, BIG_OPERATOR_COMMANDS) {
        Some(end) => !is_followed_by(chars, end, '\'', '_', '^'),
        None => false,
    };
    if big {
        return true;
    }
    match group_end_at(chars, k) {
        Some(end) => !is_followed_by(chars, end, '\'', '\'', '\''),
        None => false,
    }
}

/// Whether `latex2mathml` can be handed the LaTeX text (see `supported_latex`).
pub fn latex_supported(latex: &str) -> (supported: bool)
    ensures
        supported == supported_latex(latex@),
{
    let chars = chars_of(latex);
    let n = chars.len();
    let mut i: usize = 0;
    let mut backslashes: usize = 0;
    while i < n
        invariant
            i <= n == chars@.len(),
            chars@ == latex@,
            backslashes == backslashes_before(latex@, i as int),
            backslashes <= i,
            forall|j: int| 0 <= j < i && #[trigger] middle_at(latex@, j) ==> middle_delimited(latex@, j),
        decreases n - i,
    {
        if is_middle_at(&chars, i, backslashes) && !is_middle_delimited(&chars, i) {
            return false;
        }
        if chars[i] == '\\' {
            backslashes = backslashes + 1;
        } else {
            backslashes = 0;
        }
        i = i + 1;
    }
    true
}

} // verus!
