//! Reading highlighting rules from the text of a rule file.

use vstd::prelude::*;
use crate::color::Color;
use crate::config::{IniLine, LineView, bad_line, bad_line_message, first_refusal, flag_setting, ini_lines, parse_ini_file, read_flag, read_values};
use crate::syntax::SyntaxConfig;
use crate::text::{chars_of, pieces, same_text, split_chars, string_of, trim, trimmed};

verus! {

/// The texts of a list of strings.
pub open spec fn strings(v: Seq<String>) -> Seq<Seq<char>> {
    v.map_values(|s: String| s@)
}

/// Highlighting rules as mathematical values.
#[verifier::ext_equal]
pub struct SyntaxView {
    pub name: Seq<char>,
    pub highlight_numbers: bool,
    pub slcomment_start: Seq<Seq<char>>,
    pub slstring_quotes: Seq<char>,
    pub mlcomment_delims: Option<(Seq<char>, Seq<char>)>,
    pub mlstring_delims: Option<Seq<char>>,
    pub keywords: Seq<(Color, Seq<Seq<char>>)>,
}

impl View for SyntaxConfig {
    type V = SyntaxView;

    open spec fn view(&self) -> SyntaxView {
        SyntaxView {
            name: self.name@,
            highlight_numbers: self.highlight_numbers,
            slcomment_start: strings(self.slcomment_start@),
            slstring_quotes: self.slstring_quotes@,
            mlcomment_delims: match self.mlcomment_delims {
                Some(d) => Some((d.0@, d.1@)),
                None => None,
            },
            mlstring_delims: match self.mlstring_delims {
                Some(d) => Some(d@),
                None => None,
            },
            keywords: self.keywords@.map_values(|k: (Color, Vec<String>)| (k.0, strings(k.1@))),
        }
    }
}

/// Rules that colour nothing.
pub open spec fn plain_rules() -> SyntaxView {
    SyntaxView {
        name: Seq::empty(),
        highlight_numbers: false,
        slcomment_start: Seq::empty(),
        slstring_quotes: Seq::empty(),
        mlcomment_delims: None,
        mlstring_delims: None,
        keywords: Seq::empty(),
    }
}

/// The items of a list: the pieces between the commas, each trimmed.
pub open spec fn items(value: Seq<char>) -> Seq<Seq<char>> {
    pieces(value, ',').map_values(|p: Seq<char>| trimmed(p))
}

/// What a rule file has said so far: the rules and the file extensions
/// that they are for.
#[verifier::ext_equal]
pub struct Loaded {
    pub rules: SyntaxView,
    pub extensions: Seq<Seq<char>>,
}

/// What a rule file says after one more entry, or why the entry is
/// refused.
///
/// `name` and `multiline_string_delim` take the value as it is;
/// `extensions`, `singleline_comment_start`, `keywords_1` and `keywords_2`
/// take a list, the keywords with their colours yellow and magenta;
/// `singleline_string_quotes` takes a list of single characters;
/// `highlight_numbers` takes `true` or `false`; `multiline_comment_delims`
/// takes exactly two items. Any other key is refused.
pub open spec fn rule_applied(st: Loaded, key: Seq<char>, value: Seq<char>) -> Result<Loaded, Seq<char>> {
    let r = st.rules;
    if key == "name"@ {
        Ok(Loaded { rules: SyntaxView { name: trimmed(value), ..r }, ..st })
    } else if key == "extensions"@ {
        Ok(Loaded { extensions: st.extensions + items(value), ..st })
    } else if key == "highlight_numbers"@ {
        match flag_setting(value) {
            Err(m) => Err(m),
            Ok(v) => Ok(Loaded { rules: SyntaxView { highlight_numbers: v, ..r }, ..st }),
        }
    } else if key == "singleline_comment_start"@ {
        Ok(Loaded { rules: SyntaxView { slcomment_start: items(value), ..r }, ..st })
    } else if key == "singleline_string_quotes"@ {
        match first_refusal::<char>(pieces(value, ','), pieces(value, ',').len() as int) {
            Some(m) => Err("Parser error: "@ + m),
            None => Ok(
                Loaded {
                    rules: SyntaxView {
                        slstring_quotes: items(value).map_values(|t: Seq<char>| t[0]),
                        ..r
                    },
                    ..st
                },
            ),
        }
    } else if key == "multiline_comment_delims"@ {
        if items(value).len() == 2 {
            Ok(
                Loaded {
                    rules: SyntaxView {
                        mlcomment_delims: Some((items(value)[0], items(value)[1])),
                        ..r
                    },
                    ..st
                },
            )
        } else {
            Err("mlcomment_delims must have two values"@)
        }
    } else if key == "multiline_string_delim"@ {
        Ok(Loaded { rules: SyntaxView { mlstring_delims: Some(trimmed(value)), ..r }, ..st })
    } else if key == "keywords_1"@ {
        Ok(
            Loaded {
                rules: SyntaxView { keywords: r.keywords.push((Color::Yellow, items(value))), ..r },
                ..st
            },
        )
    } else if key == "keywords_2"@ {
        Ok(
            Loaded {
                rules: SyntaxView { keywords: r.keywords.push((Color::Magenta, items(value))), ..r },
                ..st
            },
        )
    } else {
        Err("Unknown key: "@ + key)
    }
}

/// What the first `k` lines of a rule file say, or the first error.
pub open spec fn rules_upto(lines: Seq<LineView>, k: int) -> Result<Loaded, Seq<char>>
    decreases k,
{
    if k <= 0 || k > lines.len() {
        Ok(Loaded { rules: plain_rules(), extensions: Seq::empty() })
    } else {
        match rules_upto(lines, k - 1) {
            Err(m) => Err(m),
            Ok(st) => match lines[k - 1] {
                LineView::Blank => Ok(st),
                LineView::Bad => Err(bad_line(k)),
                LineView::Entry(key, value) => rule_applied(st, key, value),
            },
        }
    }
}

/// What a rule file says.
pub open spec fn rules_of(text: Seq<char>) -> Result<Loaded, Seq<char>> {
    rules_upto(ini_lines(text), ini_lines(text).len() as int)
}

/// Once the lines gave an error, it stays the error.
pub proof fn lemma_rules_error(lines: Seq<LineView>, k: int, n: int)
    requires
        0 <= k <= n <= lines.len(),
        rules_upto(lines, k) is Err,
    ensures
        rules_upto(lines, n) == rules_upto(lines, k),
    decreases n - k,
{
    if k < n {
        lemma_rules_error(lines, k, n - 1);
    }
}

/// Reads a list of texts.
fn read_items(value: &str) -> (v: Vec<String>)
    ensures
        strings(v@) == items(value@),
{
    let text = chars_of(value);
    match read_values::<String>(text.as_slice()) {
        Ok(v) => {
            assert(strings(v@) =~= items(value@));
            v
        },
        Err(_) => {
            proof {
                lemma_no_refusal(pieces(value@, ','), pieces(value@, ',').len() as int);
            }
            Vec::new()
        },
    }
}

/// No text is refused as a text.
proof fn lemma_no_refusal(parts: Seq<Seq<char>>, k: int)
    ensures
        first_refusal::<String>(parts, k) is None,
    decreases k,
{
    if 0 < k <= parts.len() {
        lemma_no_refusal(parts, k - 1);
    }
}

/// Reads a list of single characters.
fn read_quotes(value: &str) -> (r: Result<Vec<char>, String>)
    ensures
        match first_refusal::<char>(pieces(value@, ','), pieces(value@, ',').len() as int) {
            Some(m) => r matches Err(e) && e@ == "Parser error: "@ + m,
            None => r matches Ok(v) && v@ == items(value@).map_values(|t: Seq<char>| t[0]),
        },
{
    let text = chars_of(value);
    match read_values::<char>(text.as_slice()) {
        Ok(v) => {
            assert(v@ =~= items(value@).map_values(|t: Seq<char>| t[0]));
            Ok(v)
        },
        Err(e) => Err(e),
    }
}

/// The text without the white space around it, as a string.
fn read_text(value: &[char]) -> (s: String)
    ensures
        s@ == trimmed(value@),
{
    let t = trim(value);
    string_of(t.as_slice())
}

impl SyntaxConfig {
    /// Applies one entry of a rule file to the rules and to the list of
    /// file extensions.
    pub fn apply(&mut self, extensions: &mut Vec<String>, key: &str, value: &str) -> (r: Result<
        (),
        String,
    >)
        ensures
            match rule_applied(
                Loaded { rules: old(self)@, extensions: strings(old(extensions)@) },
                key@,
                value@,
            ) {
                Ok(st) => r is Ok && final(self)@ == st.rules && strings(final(extensions)@)
                    == st.extensions,
                Err(m) => r matches Err(e) && e@ == m,
            },
    {
        let k = chars_of(key);
        let ghost before = self@;
        if same_text(k.as_slice(), "name") {
            let text = chars_of(value);
            self.name = read_text(text.as_slice());
        } else if same_text(k.as_slice(), "extensions") {
            let mut more = read_items(value);
            let ghost had = extensions@;
            let ghost got = more@;
            extensions.append(&mut more);
            assert(strings(extensions@) =~= strings(had) + strings(got));
        } else if same_text(k.as_slice(), "highlight_numbers") {
            self.highlight_numbers = read_flag(value)?;
        } else if same_text(k.as_slice(), "singleline_comment_start") {
            self.slcomment_start = read_items(value);
        } else if same_text(k.as_slice(), "singleline_string_quotes") {
            self.slstring_quotes = read_quotes(value)?;
        } else if same_text(k.as_slice(), "multiline_comment_delims") {
            let text = chars_of(value);
            let parts = split_chars(text.as_slice(), ',');
            if parts.len() != 2 {
                return Err(String::from_str("mlcomment_delims must have two values"));
            }
            let ghost all = pieces(value@, ',');
            assert(all[0] == parts@[0]@);
            assert(all[1] == parts@[1]@);
            let opening = read_text(parts[0].as_slice());
            let closing = read_text(parts[1].as_slice());
            self.mlcomment_delims = Some((opening, closing));
        } else if same_text(k.as_slice(), "multiline_string_delim") {
            let text = chars_of(value);
            self.mlstring_delims = Some(read_text(text.as_slice()));
        } else if same_text(k.as_slice(), "keywords_1") {
            let words = read_items(value);
            self.keywords.push((Color::Yellow, words));
            assert(self@.keywords =~= before.keywords.push((Color::Yellow, items(value@))));
        } else if same_text(k.as_slice(), "keywords_2") {
            let words = read_items(value);
            self.keywords.push((Color::Magenta, words));
            assert(self@.keywords =~= before.keywords.push((Color::Magenta, items(value@))));
        } else {
            let mut message = String::from_str("Unknown key: ");
            message.append(key);
            return Err(message);
        }
        Ok(())
    }

    /// Reads highlighting rules and the file extensions that they are for
    /// from the text of a rule file.
    ///
    /// The rules start out plain; every entry of the file sets one of them.
    /// The first line that is bad, or whose entry is refused, is the error.
    pub fn from_file(text: &str) -> (r: Result<(SyntaxConfig, Vec<String>), String>)
        ensures
            match rules_of(text@) {
                Ok(st) => r matches Ok(got) && got.0@ == st.rules && strings(got.1@) == st.extensions,
                Err(m) => r matches Err(e) && e@ == m,
            },
    {
        let mut config = SyntaxConfig::plain();
        let mut extensions: Vec<String> = Vec::new();
        let lines = parse_ini_file(text);
        let ghost all = ini_lines(text@);
        assert(config@ =~= plain_rules());
        assert(strings(extensions@) =~= Seq::<Seq<char>>::empty());
        let mut k: usize = 0;
        while k < lines.len()
            invariant
                k <= lines.len(),
                lines@.map_values(|l: IniLine| l@) == all,
                all == ini_lines(text@),
                all.len() == lines@.len(),
                rules_upto(all, k as int) == Ok::<Loaded, Seq<char>>(
                    Loaded { rules: config@, extensions: strings(extensions@) },
                ),
            decreases lines.len() - k,
        {
            assert(all[k as int] == lines@[k as int]@);
            match &lines[k] {
                IniLine::Blank => {},
                IniLine::Bad => {
                    proof {
                        lemma_rules_error(all, k + 1, all.len() as int);
                    }
                    return Err(bad_line_message(k + 1));
                },
                IniLine::Entry(key, value) => {
                    match config.apply(&mut extensions, key.as_str(), value.as_str()) {
                        Ok(()) => {},
                        Err(e) => {
                            proof {
                                lemma_rules_error(all, k + 1, all.len() as int);
                            }
                            return Err(e);
                        },
                    }
                },
            }
            k += 1;
        }
        Ok((config, extensions))
    }
}

/// Whether the rules of a rule file are for files with the given
/// extension.
pub fn has_extension(extensions: &Vec<String>, ext: &str) -> (r: bool)
    ensures
        r == strings(extensions@).contains(ext@),
{
    let wanted = chars_of(ext);
    let mut k: usize = 0;
    while k < extensions.len()
        invariant
            k <= extensions.len(),
            wanted@ == ext@,
            forall|i: int| 0 <= i < k ==> strings(extensions@)[i] != ext@,
        decreases extensions.len() - k,
    {
        if same_text(wanted.as_slice(), extensions[k].as_str()) {
            assert(strings(extensions@)[k as int] == ext@);
            return true;
        }
        k += 1;
    }
    false
}

} // verus!
