//! The editor's settings.

use std::path::PathBuf;
use vstd::prelude::*;
use crate::text::{IntError, chars_of, decimal, find_char, index_of, lemma_drop_spaces, number_of, parse_usize, pieces, push_chars, push_decimal, same_text, split_chars, string_of, trim, trim_bounds, trimmed, trimmed_end};

verus! {

/// A path of the file system: `std::path::PathBuf`, carried through as it
/// is.
#[verifier::external_type_specification]
#[verifier::external_body]
pub struct ExPathBuf(PathBuf);

/// The editor's settings.
#[derive(Debug)]
pub struct Config {
    /// The distance between tab stops, at least 1.
    pub tab_stop: usize,
    /// How often the quit key must be pressed to leave a modified buffer,
    /// at least 1.
    pub quit_times: usize,
    /// How long a status message stays visible, in seconds.
    pub message_duration: usize,
    /// Whether line numbers are shown.
    pub show_line_numbers: bool,
    /// The folder that holds the settings and the syntax rules.
    pub config_folder: PathBuf,
}

impl Config {
    /// Whether the settings can drive an editor: the tab stop and the
    /// number of quit presses are positive.
    pub open spec fn valid(&self) -> bool {
        self.tab_stop > 0 && self.quit_times > 0
    }

    /// The settings of an editor that found no settings file.
    pub fn standard(config_folder: PathBuf) -> (c: Config)
        ensures
            c.tab_stop == 4,
            c.quit_times == 2,
            c.message_duration == 5,
            c.show_line_numbers,
            c.config_folder == config_folder,
            c.valid(),
    {
        Config {
            tab_stop: 4,
            quit_times: 2,
            message_duration: 5,
            show_line_numbers: true,
            config_folder,
        }
    }
}

/// A kind of value that a settings file can hold.
pub trait Setting: Sized {
    /// Why the text is no value of this kind, where it is none.
    spec fn refusal(text: Seq<char>) -> Option<Seq<char>>;

    /// Whether `value` is what the text says.
    spec fn reads_as(text: Seq<char>, value: Self) -> bool;

    /// Reads a value of this kind: the value that the text says, or why it
    /// says none.
    fn read(text: &[char]) -> (r: Result<Self, String>)
        ensures
            match r {
                Ok(v) => Self::refusal(text@) is None && Self::reads_as(text@, v),
                Err(e) => Self::refusal(text@) == Some(e@),
            },
    ;
}

/// A number: decimal digits after an optional plus sign.
impl Setting for usize {
    open spec fn refusal(text: Seq<char>) -> Option<Seq<char>> {
        match number_of(text) {
            Ok(_) => None,
            Err(e) => Some(e.message()),
        }
    }

    open spec fn reads_as(text: Seq<char>, value: usize) -> bool {
        number_of(text) == Ok::<usize, IntError>(value)
    }

    fn read(text: &[char]) -> (r: Result<usize, String>) {
        assert(text@.subrange(0, text@.len() as int) =~= text@);
        match parse_usize(text, 0, text.len()) {
            Ok(v) => Ok(v),
            Err(e) => Err(String::from_str(e.describe())),
        }
    }
}

/// A truth value: `true` or `false`.
impl Setting for bool {
    open spec fn refusal(text: Seq<char>) -> Option<Seq<char>> {
        if text == "true"@ || text == "false"@ {
            None
        } else {
            Some("provided string was not `true` or `false`"@)
        }
    }

    open spec fn reads_as(text: Seq<char>, value: bool) -> bool {
        value == (text == "true"@)
    }

    fn read(text: &[char]) -> (r: Result<bool, String>) {
        if same_text(text, "true") {
            Ok(true)
        } else if same_text(text, "false") {
            Ok(false)
        } else {
            Err(String::from_str("provided string was not `true` or `false`"))
        }
    }
}

/// A text: any text.
impl Setting for String {
    open spec fn refusal(text: Seq<char>) -> Option<Seq<char>> {
        None
    }

    open spec fn reads_as(text: Seq<char>, value: String) -> bool {
        value@ == text
    }

    fn read(text: &[char]) -> (r: Result<String, String>) {
        Ok(string_of(text))
    }
}

/// A character: a text of exactly one character.
impl Setting for char {
    open spec fn refusal(text: Seq<char>) -> Option<Seq<char>> {
        if text.len() == 0 {
            Some("cannot parse char from empty string"@)
        } else if text.len() > 1 {
            Some("too many characters in string"@)
        } else {
            None
        }
    }

    open spec fn reads_as(text: Seq<char>, value: char) -> bool {
        text.len() == 1 && value == text[0]
    }

    fn read(text: &[char]) -> (r: Result<char, String>) {
        if text.len() == 0 {
            Err(String::from_str("cannot parse char from empty string"))
        } else if text.len() > 1 {
            Err(String::from_str("too many characters in string"))
        } else {
            Ok(text[0])
        }
    }
}

/// What reading a value from a text gives: the text is trimmed first, and
/// a refusal is reported as a parser error.
pub open spec fn value_read<T: Setting>(text: Seq<char>, r: Result<T, String>) -> bool {
    match r {
        Ok(v) => T::refusal(trimmed(text)) is None && T::reads_as(trimmed(text), v),
        Err(e) => T::refusal(trimmed(text)) matches Some(m) && e@ == "Parser error: "@ + m,
    }
}

/// Reads a value from a text, white space around it aside.
pub fn parse_value<T: Setting>(value: &str) -> (r: Result<T, String>)
    ensures
        value_read(value@, r),
{
    let text = chars_of(value);
    read_value(text.as_slice())
}

/// Reads a value from characters, white space around them aside.
pub fn read_value<T: Setting>(text: &[char]) -> (r: Result<T, String>)
    ensures
        value_read(text@, r),
{
    let t = trim(text);
    match T::read(t.as_slice()) {
        Ok(v) => Ok(v),
        Err(e) => {
            let mut message = String::from_str("Parser error: ");
            message.append(e.as_str());
            Err(message)
        },
    }
}

/// The first refusal among the first `k` texts, each trimmed.
pub open spec fn first_refusal<T: Setting>(parts: Seq<Seq<char>>, k: int) -> Option<Seq<char>>
    decreases k,
{
    if k <= 0 || k > parts.len() {
        None
    } else {
        match first_refusal::<T>(parts, k - 1) {
            Some(m) => Some(m),
            None => T::refusal(trimmed(parts[k - 1])),
        }
    }
}

/// What reading a list of values gives: the text is cut at the commas and
/// every piece read as a value; the first piece that is none is reported.
pub open spec fn values_read<T: Setting>(text: Seq<char>, r: Result<Vec<T>, String>) -> bool {
    let parts = pieces(text, ',');
    match r {
        Ok(v) => {
            &&& first_refusal::<T>(parts, parts.len() as int) is None
            &&& v@.len() == parts.len()
            &&& forall|i: int| 0 <= i < parts.len() ==> T::reads_as(trimmed(#[trigger] parts[i]), v@[i])
        },
        Err(e) => first_refusal::<T>(parts, parts.len() as int) matches Some(m) && e@
            == "Parser error: "@ + m,
    }
}

/// Reads a list of values, separated by commas.
pub fn parse_values<T: Setting>(value: &str) -> (r: Result<Vec<T>, String>)
    ensures
        values_read(value@, r),
{
    let text = chars_of(value);
    read_values(text.as_slice())
}

/// Reads a list of values, separated by commas, from characters.
pub fn read_values<T: Setting>(text: &[char]) -> (r: Result<Vec<T>, String>)
    ensures
        values_read(text@, r),
{
    let parts = split_chars(text, ',');
    let ghost all = pieces(text@, ',');
    let mut out: Vec<T> = Vec::new();
    let mut k: usize = 0;
    while k < parts.len()
        invariant
            k <= parts.len(),
            parts@.map_values(|p: Vec<char>| p@) == all,
            all == pieces(text@, ','),
            first_refusal::<T>(all, k as int) is None,
            out@.len() == k,
            forall|i: int| 0 <= i < k ==> T::reads_as(trimmed(#[trigger] all[i]), out@[i]),
        decreases parts.len() - k,
    {
        assert(all[k as int] == parts@[k as int]@);
        match read_value::<T>(parts[k].as_slice()) {
            Ok(v) => {
                out.push(v);
            },
            Err(e) => {
                proof {
                    lemma_refusal_stays::<T>(all, k + 1, all.len() as int);
                }
                return Err(e);
            },
        }
        k += 1;
    }
    Ok(out)
}

/// Once a text was refused, the first refusal stays what it is.
pub proof fn lemma_refusal_stays<T: Setting>(parts: Seq<Seq<char>>, k: int, n: int)
    requires
        0 <= k <= n <= parts.len(),
        first_refusal::<T>(parts, k) is Some,
    ensures
        first_refusal::<T>(parts, n) == first_refusal::<T>(parts, k),
    decreases n - k,
{
    if k < n {
        lemma_refusal_stays::<T>(parts, k, n - 1);
    }
}

/// One line of a settings file.
#[derive(Debug)]
pub enum IniLine {
    /// An empty line or a comment.
    Blank,
    /// A key and its value.
    Entry(String, String),
    /// Anything else.
    Bad,
}

/// One line of a settings file, as mathematical values.
pub enum LineView {
    Blank,
    Entry(Seq<char>, Seq<char>),
    Bad,
}

impl View for IniLine {
    type V = LineView;

    open spec fn view(&self) -> LineView {
        match self {
            IniLine::Blank => LineView::Blank,
            IniLine::Entry(k, v) => LineView::Entry(k@, v@),
            IniLine::Bad => LineView::Bad,
        }
    }
}

/// Whether a text starts a comment: with `#` or `;`.
pub open spec fn starts_comment(s: Seq<char>) -> bool {
    s.len() > 0 && (s[0] == '#' || s[0] == ';')
}

/// What a line of a settings file says, white space around it aside.
///
/// An empty line says nothing, and neither does a line that starts with
/// `#` or `;`. Any other line holds a key, an equals sign and a value: the
/// key is what stands before the first equals sign, without the white space
/// at its end, and the value is all that follows it. A line without an
/// equals sign is bad.
pub open spec fn ini_line(line: Seq<char>) -> LineView {
    let t = trimmed(line);
    let k = index_of(t, '=', 0);
    if starts_comment(t) {
        LineView::Blank
    } else if k < t.len() {
        LineView::Entry(trimmed_end(t.subrange(0, k)), t.subrange(k + 1, t.len() as int))
    } else if t.len() == 0 {
        LineView::Blank
    } else {
        LineView::Bad
    }
}

/// Reads one line of a settings file.
pub fn parse_ini_line(line: &[char]) -> (r: IniLine)
    ensures
        r@ == ini_line(line@),
{
    let t = trim(line);
    let n = t.len();
    if n > 0 && (t[0] == '#' || t[0] == ';') {
        return IniLine::Blank;
    }
    assert(t@.subrange(0, n as int) =~= t@);
    let k = find_char(t.as_slice(), '=', 0, n);
    if k < n {
        let ghost head = t@.subrange(0, k as int);
        proof {
            lemma_drop_spaces(head, 0, head.len() as int);
        }
        let (a, b) = trim_bounds(t.as_slice(), 0, k, false, true);
        let mut key = String::new();
        push_chars(&mut key, t.as_slice(), 0, b);
        assert(key@ =~= trimmed_end(head));
        let mut value = String::new();
        push_chars(&mut value, t.as_slice(), k + 1, n);
        assert(value@ =~= t@.subrange(k + 1, n as int));
        IniLine::Entry(key, value)
    } else if n == 0 {
        IniLine::Blank
    } else {
        IniLine::Bad
    }
}

/// The lines of a settings file.
pub open spec fn ini_lines(text: Seq<char>) -> Seq<LineView> {
    pieces(text, '\n').map_values(|l: Seq<char>| ini_line(l))
}

/// Reads the lines of a settings file, one entry for each line of the
/// text.
pub fn parse_ini_file(text: &str) -> (lines: Vec<IniLine>)
    ensures
        lines@.map_values(|l: IniLine| l@) == ini_lines(text@),
{
    let chars = chars_of(text);
    let parts = split_chars(chars.as_slice(), '\n');
    let mut lines: Vec<IniLine> = Vec::new();
    let mut k: usize = 0;
    let ghost all = pieces(text@, '\n');
    while k < parts.len()
        invariant
            k <= parts.len(),
            parts@.map_values(|p: Vec<char>| p@) == all,
            lines@.len() == k,
            forall|i: int| 0 <= i < k ==> (#[trigger] lines@[i])@ == ini_line(all[i]),
        decreases parts.len() - k,
    {
        assert(all[k as int] == parts@[k as int]@);
        lines.push(parse_ini_line(parts[k].as_slice()));
        k += 1;
    }
    assert(lines@.map_values(|l: IniLine| l@) =~= all.map_values(|l: Seq<char>| ini_line(l)));
    lines
}

/// The message for a bad line, lines counted from 1.
pub open spec fn bad_line(number: int) -> Seq<char> {
    "Syntax error on configuration file line "@ + decimal(number as nat)
}

/// The message for a bad line.
pub fn bad_line_message(number: usize) -> (m: String)
    ensures
        m@ == bad_line(number as int),
{
    let mut m = String::from_str("Syntax error on configuration file line ");
    push_decimal(&mut m, number);
    m
}

/// The number that a value says, or the parser error.
pub open spec fn number_setting(value: Seq<char>) -> Result<usize, Seq<char>> {
    match number_of(trimmed(value)) {
        Ok(v) => Ok(v),
        Err(e) => Err("Parser error: "@ + e.message()),
    }
}

/// The truth value that a value says, or the parser error.
pub open spec fn flag_setting(value: Seq<char>) -> Result<bool, Seq<char>> {
    if trimmed(value) == "true"@ {
        Ok(true)
    } else if trimmed(value) == "false"@ {
        Ok(false)
    } else {
        Err("Parser error: "@ + "provided string was not `true` or `false`"@)
    }
}

/// The error of a result as text.
pub open spec fn error_text<T>(r: Result<T, String>) -> Result<T, Seq<char>> {
    match r {
        Ok(v) => Ok(v),
        Err(e) => Err(e@),
    }
}

/// Reads a number from a value.
pub fn read_number(value: &str) -> (r: Result<usize, String>)
    ensures
        error_text(r) == number_setting(value@),
{
    parse_value::<usize>(value)
}

/// Reads a truth value from a value.
pub fn read_flag(value: &str) -> (r: Result<bool, String>)
    ensures
        error_text(r) == flag_setting(value@),
{
    parse_value::<bool>(value)
}

/// The settings as mathematical values.
pub struct ConfigView {
    pub tab_stop: usize,
    pub quit_times: usize,
    pub message_duration: usize,
    pub show_line_numbers: bool,
    pub config_folder: PathBuf,
}

impl View for Config {
    type V = ConfigView;

    open spec fn view(&self) -> ConfigView {
        ConfigView {
            tab_stop: self.tab_stop,
            quit_times: self.quit_times,
            message_duration: self.message_duration,
            show_line_numbers: self.show_line_numbers,
            config_folder: self.config_folder,
        }
    }
}

/// The settings after one entry of the settings file, or why the entry is
/// refused: a value that is none of its kind, a tab stop or a number of
/// quit presses of 0, or a key that is not known.
pub open spec fn setting_applied(c: ConfigView, key: Seq<char>, value: Seq<char>) -> Result<
    ConfigView,
    Seq<char>,
> {
    if key == "tab_stop"@ {
        match number_setting(value) {
            Err(m) => Err(m),
            Ok(v) => if v == 0 {
                Err("tab_stop must be greater than 0"@)
            } else {
                Ok(ConfigView { tab_stop: v, ..c })
            },
        }
    } else if key == "quit_times"@ {
        match number_setting(value) {
            Err(m) => Err(m),
            Ok(v) => if v == 0 {
                Err("quit_times must be greater than 0"@)
            } else {
                Ok(ConfigView { quit_times: v, ..c })
            },
        }
    } else if key == "message_duration"@ {
        match number_setting(value) {
            Err(m) => Err(m),
            Ok(v) => Ok(ConfigView { message_duration: v, ..c }),
        }
    } else if key == "show_line_numbers"@ {
        match flag_setting(value) {
            Err(m) => Err(m),
            Ok(v) => Ok(ConfigView { show_line_numbers: v, ..c }),
        }
    } else {
        Err("Unknown key in configuration file: {key}"@)
    }
}

/// The settings after the first `k` lines of the settings file, or the
/// first error.
pub open spec fn settings_upto(lines: Seq<LineView>, k: int, start: ConfigView) -> Result<
    ConfigView,
    Seq<char>,
>
    decreases k,
{
    if k <= 0 || k > lines.len() {
        Ok(start)
    } else {
        match settings_upto(lines, k - 1, start) {
            Err(m) => Err(m),
            Ok(c) => match lines[k - 1] {
                LineView::Blank => Ok(c),
                LineView::Bad => Err(bad_line(k)),
                LineView::Entry(key, value) => setting_applied(c, key, value),
            },
        }
    }
}

/// The standard settings for a folder.
pub open spec fn standard_settings(folder: PathBuf) -> ConfigView {
    ConfigView {
        tab_stop: 4,
        quit_times: 2,
        message_duration: 5,
        show_line_numbers: true,
        config_folder: folder,
    }
}

/// Once the lines gave an error, it stays the error.
pub proof fn lemma_settings_error(lines: Seq<LineView>, k: int, n: int, start: ConfigView)
    requires
        0 <= k <= n <= lines.len(),
        settings_upto(lines, k, start) is Err,
    ensures
        settings_upto(lines, n, start) == settings_upto(lines, k, start),
    decreases n - k,
{
    if k < n {
        lemma_settings_error(lines, k, n - 1, start);
    }
}

impl Config {
    /// Applies one entry of the settings file.
    pub fn apply(&mut self, key: &str, value: &str) -> (r: Result<(), String>)
        ensures
            match setting_applied(old(self)@, key@, value@) {
                Ok(c) => r is Ok && final(self)@ == c,
                Err(m) => r matches Err(e) && e@ == m,
            },
            old(self).valid() && r is Ok ==> final(self).valid(),
    {
        let k = chars_of(key);
        if same_text(k.as_slice(), "tab_stop") {
            let v = read_number(value)?;
            if v == 0 {
                return Err(String::from_str("tab_stop must be greater than 0"));
            }
            self.tab_stop = v;
        } else if same_text(k.as_slice(), "quit_times") {
            let v = read_number(value)?;
            if v == 0 {
                return Err(String::from_str("quit_times must be greater than 0"));
            }
            self.quit_times = v;
        } else if same_text(k.as_slice(), "message_duration") {
            self.message_duration = read_number(value)?;
        } else if same_text(k.as_slice(), "show_line_numbers") {
            self.show_line_numbers = read_flag(value)?;
        } else {
            return Err(String::from_str("Unknown key in configuration file: {key}"));
        }
        Ok(())
    }

    /// Reads the settings from the text of the settings file of a folder.
    ///
    /// The settings start out standard; every entry of the file changes
    /// one of them. The first line that is bad, or whose entry is refused,
    /// is the error. Settings that are read can drive an editor.
    pub fn load(config_folder: PathBuf, text: &str) -> (r: Result<Config, String>)
        ensures
            match settings_upto(
                ini_lines(text@),
                ini_lines(text@).len() as int,
                standard_settings(config_folder),
            ) {
                Ok(c) => r matches Ok(got) && got@ == c && got.valid(),
                Err(m) => r matches Err(e) && e@ == m,
            },
    {
        let mut config = Config::standard(config_folder);
        let lines = parse_ini_file(text);
        let ghost all = ini_lines(text@);
        let ghost start = standard_settings(config_folder);
        let mut k: usize = 0;
        while k < lines.len()
            invariant
                k <= lines.len(),
                lines@.map_values(|l: IniLine| l@) == all,
                all == ini_lines(text@),
                all.len() == lines@.len(),
                start == standard_settings(config_folder),
                settings_upto(all, k as int, start) == Ok::<ConfigView, Seq<char>>(config@),
                config.valid(),
            decreases lines.len() - k,
        {
            assert(all[k as int] == lines@[k as int]@);
            match &lines[k] {
                IniLine::Blank => {},
                IniLine::Bad => {
                    proof {
                        lemma_settings_error(all, k + 1, all.len() as int, start);
                    }
                    return Err(bad_line_message(k + 1));
                },
                IniLine::Entry(key, value) => {
                    match config.apply(key.as_str(), value.as_str()) {
                        Ok(()) => {},
                        Err(e) => {
                            proof {
                                lemma_settings_error(all, k + 1, all.len() as int, start);
                            }
                            return Err(e);
                        },
                    }
                },
            }
            k += 1;
        }
        Ok(config)
    }
}

} // verus!
