use vstd::prelude::*;
use crate::option_vec::{
    OptionVec, is_first_free, filled_at, freed_at, occupied_count, first_free_slot,
};
use crate::option_table::{OptionTable, text_values};
use crate::routines::RadioOption;
use crate::text::{
    TokenType, split_whitespace, token_type, decimal_value, all_digits, decimal_digits, chars_of,
    tokenize, classify_token, parse_decimal, string_of, push_decimal, lemma_tokens_nonempty,
    is_digit, digits_and_dots, no_ws, push_char, lemma_split_single, lemma_split_append_word,
    lemma_digits_no_dots, law_decimal_round_trip,
};

verus! {

/// What a left click does in the editor.
#[derive(PartialEq, Eq, Structural, Debug, Clone, Copy)]
pub enum ClickAction {
    Select,
    CreateTotoro,
    CreatePointLight,
    DeleteObject,
    MovePlayerSpawn,
    MoveSelectedTotoro,
    MovePointLight,
    ToggleGrabbableTriangle,
}

impl Default for ClickAction {
    fn default() -> (a: Self)
        ensures
            a == ClickAction::Select,
    {
        ClickAction::Select
    }
}

impl RadioOption for ClickAction {
    open spec fn spec_default_option() -> Self {
        ClickAction::Select
    }

    fn same_option(&self, other: &Self) -> (b: bool) {
        *self == *other
    }

    fn default_option() -> (r: Self) {
        ClickAction::default()
    }
}

/// A slot-stable list of entities together with the index of the selected one.
pub struct EntityList<T> {
    pub entities: OptionVec<T>,
    pub selected_idx: Option<usize>,
}

impl<T> EntityList<T> {
    /// An empty list with nothing selected.
    pub fn new() -> (l: Self)
        ensures
            l.entities@ == Seq::<Option<T>>::empty(),
            l.selected_idx is None,
    {
        EntityList { entities: OptionVec::new(), selected_idx: None }
    }

    /// Removes every entity and the selection.
    pub fn clear(&mut self)
        ensures
            final(self).entities@ == Seq::<Option<T>>::empty(),
            final(self).selected_idx is None,
    {
        self.entities.clear();
        self.selected_idx = None;
    }

    /// Frees the slot `idx`; the selection is dropped when it was that slot.
    pub fn delete(&mut self, idx: usize)
        ensures
            final(self).entities@ == freed_at(old(self).entities@, idx as int),
            final(self).selected_idx == (if old(self).selected_idx == Some(idx) {
                None
            } else {
                old(self).selected_idx
            }),
    {
        self.entities.delete(idx);
        if let Some(i) = self.selected_idx {
            if i == idx {
                self.selected_idx = None;
            }
        }
    }

    /// Number of live entities.
    pub fn count(&self) -> (n: usize)
        ensures
            n == occupied_count(self.entities@),
    {
        self.entities.count()
    }

    /// Mutable access to the entity in slot `idx`, if there is one.
    pub fn get_mut_element(&mut self, idx: usize) -> (r: Option<&mut T>)
        ensures
            final(self).selected_idx == old(self).selected_idx,
            r is Some ==> {
                &&& idx < old(self).entities@.len()
                &&& old(self).entities@[idx as int] == Some(*r.unwrap())
                &&& final(self).entities@ == old(self).entities@.update(
                    idx as int,
                    Some(*final(r.unwrap())),
                )
            },
            r is None ==> {
                &&& (idx >= old(self).entities@.len() || old(self).entities@[idx as int] is None)
                &&& final(self).entities@ == old(self).entities@
            },
    {
        self.entities.get_mut_element(idx)
    }

    /// Adds an entity in the lowest free slot and returns that slot's index.
    pub fn insert(&mut self, item: T) -> (idx: usize)
        requires
            old(self).entities@.len() < usize::MAX,
        ensures
            is_first_free(old(self).entities@, idx as int),
            idx == first_free_slot(old(self).entities@),
            final(self).entities@ == filled_at(old(self).entities@, idx as int, item),
            final(self).selected_idx == old(self).selected_idx,
    {
        self.entities.insert(item)
    }

    /// Number of slots, live or freed.
    pub fn len(&self) -> (n: usize)
        ensures
            n == self.entities@.len(),
    {
        self.entities.len()
    }

    /// An empty list with room reserved for `capacity` entities.
    pub fn with_capacity(capacity: usize) -> (l: Self)
        ensures
            l.entities@ == Seq::<Option<T>>::empty(),
            l.selected_idx is None,
    {
        EntityList { entities: OptionVec::with_capacity(capacity), selected_idx: None }
    }
}

/// How one line of a settings file is read.
#[derive(PartialEq, Eq, Structural, Debug, Clone, Copy)]
pub enum LineKind {
    /// A blank line (empty or only whitespace) or a comment.
    Skip,
    /// A line that does not hold exactly three tokens.
    Malformed,
    /// A line on which reading stops for good: an integer that does not fit
    /// in a `u32`, or a lone `"."` as a number.
    Unreadable,
    Int,
    Float,
    Str,
}

/// The name that a settings line sets.
pub open spec fn line_key(line: Seq<char>) -> Seq<char> {
    split_whitespace(line)[0]
}

/// The value token of a settings line.
pub open spec fn line_value(line: Seq<char>) -> Seq<char> {
    split_whitespace(line)[2]
}

/// A settings line is `name separator value`; blank lines and lines whose
/// first token starts with `'#'` are skipped.
pub open spec fn line_kind(line: Seq<char>) -> LineKind {
    let toks = split_whitespace(line);
    if toks.len() == 0 {
        LineKind::Skip
    } else if toks[0][0] == '#' {
        LineKind::Skip
    } else if toks.len() != 3 {
        LineKind::Malformed
    } else {
        let v = toks[2];
        match token_type(v) {
            TokenType::Int => if decimal_value(v) <= u32::MAX {
                LineKind::Int
            } else {
                LineKind::Unreadable
            },
            TokenType::Float => if v == seq!['.'] {
                LineKind::Unreadable
            } else {
                LineKind::Float
            },
            TokenType::Str => LineKind::Str,
        }
    }
}

/// A settings line as read, with its name and value.
pub enum ConfigLine {
    Skip,
    Malformed,
    Unreadable,
    Int(String, u32),
    Float(String, String),
    Str(String, String),
}

/// Where reading a settings file ends.
#[derive(PartialEq, Eq, Structural, Debug, Clone, Copy)]
pub enum ParseStatus {
    /// Every line was read.
    Complete,
    /// A malformed line came before any unreadable one.
    Malformed,
    /// An unreadable line came before any malformed one.
    Unreadable,
}

/// The characters of each line.
pub open spec fn line_views(lines: Seq<String>) -> Seq<Seq<char>> {
    lines.map_values(|l: String| l@)
}

/// Where reading stops, line by line from the first.
pub open spec fn parse_status(lines: Seq<Seq<char>>) -> ParseStatus
    decreases lines.len(),
{
    if lines.len() == 0 {
        ParseStatus::Complete
    } else {
        let p = parse_status(lines.drop_last());
        if p != ParseStatus::Complete {
            p
        } else {
            match line_kind(lines.last()) {
                LineKind::Malformed => ParseStatus::Malformed,
                LineKind::Unreadable => ParseStatus::Unreadable,
                _ => ParseStatus::Complete,
            }
        }
    }
}

/// The integer settings of the lines; a later line for the same name wins.
pub open spec fn int_entries(lines: Seq<Seq<char>>) -> Map<Seq<char>, u32>
    decreases lines.len(),
{
    if lines.len() == 0 {
        Map::empty()
    } else {
        let m = int_entries(lines.drop_last());
        let l = lines.last();
        if line_kind(l) == LineKind::Int {
            m.insert(line_key(l), decimal_value(line_value(l)) as u32)
        } else {
            m
        }
    }
}

/// The number settings of the lines, as written; a later line for the same name wins.
pub open spec fn float_entries(lines: Seq<Seq<char>>) -> Map<Seq<char>, Seq<char>>
    decreases lines.len(),
{
    if lines.len() == 0 {
        Map::empty()
    } else {
        let m = float_entries(lines.drop_last());
        let l = lines.last();
        if line_kind(l) == LineKind::Float {
            m.insert(line_key(l), line_value(l))
        } else {
            m
        }
    }
}

/// The text settings of the lines; a later line for the same name wins.
pub open spec fn string_entries(lines: Seq<Seq<char>>) -> Map<Seq<char>, Seq<char>>
    decreases lines.len(),
{
    if lines.len() == 0 {
        Map::empty()
    } else {
        let m = string_entries(lines.drop_last());
        let l = lines.last();
        if line_kind(l) == LineKind::Str {
            m.insert(line_key(l), line_value(l))
        } else {
            m
        }
    }
}

/// Once reading has stopped, later lines do not change where it stopped.
pub proof fn lemma_status_sticky(lines: Seq<Seq<char>>, i: int)
    requires
        0 <= i <= lines.len(),
        parse_status(lines.take(i)) != ParseStatus::Complete,
    ensures
        parse_status(lines) == parse_status(lines.take(i)),
    decreases lines.len() - i,
{
    if i < lines.len() {
        assert(lines.take(i + 1).drop_last() =~= lines.take(i));
        lemma_status_sticky(lines, i + 1);
    } else {
        assert(lines.take(i) =~= lines);
    }
}

/// Reads one settings line.
pub fn parse_config_line(line: &str) -> (r: ConfigLine)
    ensures
        match r {
            ConfigLine::Skip => line_kind(line@) == LineKind::Skip,
            ConfigLine::Malformed => line_kind(line@) == LineKind::Malformed,
            ConfigLine::Unreadable => line_kind(line@) == LineKind::Unreadable,
            ConfigLine::Int(k, v) => line_kind(line@) == LineKind::Int && k@ == line_key(line@)
                && v == decimal_value(line_value(line@)),
            ConfigLine::Float(k, v) => line_kind(line@) == LineKind::Float && k@ == line_key(
                line@,
            ) && v@ == line_value(line@),
            ConfigLine::Str(k, v) => line_kind(line@) == LineKind::Str && k@ == line_key(line@)
                && v@ == line_value(line@),
        },
{
    let chars = chars_of(line);
    if chars.len() == 0 {
        return ConfigLine::Skip;
    }
    let tokens = tokenize(&chars);
    proof {
        lemma_tokens_nonempty(chars@);
    }
    if tokens.len() == 0 {
        return ConfigLine::Skip;
    }
    assert(tokens@[0]@ == split_whitespace(chars@)[0]);
    if tokens[0][0] == '#' {
        return ConfigLine::Skip;
    }
    if tokens.len() != 3 {
        return ConfigLine::Malformed;
    }
    let value = &tokens[2];
    assert(value@ == split_whitespace(chars@)[2]);
    match classify_token(value) {
        TokenType::Int => {
            assert(all_digits(value@)) by {
                assert forall|i: int| 0 <= i < value@.len() implies #[trigger] is_digit(
                    value@[i],
                ) by {
                    assert(digits_and_dots(value@));
                    if value@[i] == '.' {
                        crate::text::lemma_dot_in(value@, i);
                    }
                }
            }
            match parse_decimal(value) {
                Some(n) => ConfigLine::Int(string_of(&tokens[0]), n),
                None => ConfigLine::Unreadable,
            }
        },
        TokenType::Float => {
            if value.len() == 1 && value[0] == '.' {
                assert(value@ =~= seq!['.']);
                ConfigLine::Unreadable
            } else {
                assert(value@ != seq!['.']);
                ConfigLine::Float(string_of(&tokens[0]), string_of(value))
            }
        },
        TokenType::Str => ConfigLine::Str(string_of(&tokens[0]), string_of(value)),
    }
}

/// The line that the settings file holds for one option: the name, `" = "`, the value.
pub open spec fn setting_line(label: Seq<char>, value: Seq<char>) -> Seq<char> {
    label + seq![' ', '=', ' '] + value
}

/// The lines of a written settings file, in the order they are written.
pub open spec fn settings_file_lines(
    width: u32,
    height: u32,
    level: Seq<char>,
    music: Seq<char>,
) -> Seq<Seq<char>> {
    seq![
        setting_line(Configuration::WINDOWED_WIDTH@, decimal_digits(width as nat)),
        setting_line(Configuration::WINDOWED_HEIGHT@, decimal_digits(height as nat)),
        setting_line(Configuration::LEVEL_NAME@, level),
        setting_line(Configuration::MUSIC_NAME@, music),
    ]
}

/// A name that reads back as a name: not empty, no whitespace, not a comment.
pub open spec fn plain_label(l: Seq<char>) -> bool {
    l.len() > 0 && no_ws(l) && l[0] != '#'
}

/// A text value that reads back as the same text: one token that does not
/// read as a number.
pub open spec fn plain_text_value(v: Seq<char>) -> bool {
    v.len() > 0 && no_ws(v) && token_type(v) == TokenType::Str
}

/// A settings line splits into its name, `"="` and its value.
pub proof fn lemma_setting_line_tokens(l: Seq<char>, v: Seq<char>)
    requires
        l.len() > 0,
        no_ws(l),
        v.len() > 0,
        no_ws(v),
    ensures
        split_whitespace(setting_line(l, v)) == seq![l, seq!['='], v],
{
    let eq = seq!['='];
    assert(no_ws(eq));
    lemma_split_single(l);
    lemma_split_append_word(l, ' ', eq);
    let s1 = l.push(' ') + eq;
    lemma_split_append_word(s1, ' ', v);
    assert(s1.push(' ') + v =~= setting_line(l, v));
    assert(seq![l].push(eq).push(v) =~= seq![l, eq, v]);
}

/// A written integer option reads back as the same integer under the same name.
pub proof fn lemma_int_line_reads_back(l: Seq<char>, n: u32)
    requires
        plain_label(l),
    ensures
        line_kind(setting_line(l, decimal_digits(n as nat))) == LineKind::Int,
        line_key(setting_line(l, decimal_digits(n as nat))) == l,
        decimal_value(line_value(setting_line(l, decimal_digits(n as nat)))) == n,
{
    let d = decimal_digits(n as nat);
    law_decimal_round_trip(n as nat);
    assert(no_ws(d)) by {
        assert forall|i: int| 0 <= i < d.len() implies !#[trigger] crate::text::is_ws(d[i]) by {
            assert(is_digit(d[i]));
        }
    }
    lemma_digits_no_dots(d);
    lemma_setting_line_tokens(l, d);
    let line = setting_line(l, d);
    assert(line.len() > 0);
    assert(split_whitespace(line)[0] == l);
    assert(digits_and_dots(d));
    assert(token_type(d) == TokenType::Int);
}

/// A written text option reads back as the same text under the same name.
pub proof fn lemma_text_line_reads_back(l: Seq<char>, v: Seq<char>)
    requires
        plain_label(l),
        plain_text_value(v),
    ensures
        line_kind(setting_line(l, v)) == LineKind::Str,
        line_key(setting_line(l, v)) == l,
        line_value(setting_line(l, v)) == v,
{
    lemma_setting_line_tokens(l, v);
    let line = setting_line(l, v);
    assert(line.len() > 0);
    assert(split_whitespace(line)[0] == l);
}

/// Reading a written settings file gives back the window size, the level name
/// and the music name that were written, and no number options. Text values
/// must be single tokens that do not read as numbers.
pub proof fn law_settings_round_trip(width: u32, height: u32, level: Seq<char>, music: Seq<char>)
    requires
        plain_text_value(level),
        plain_text_value(music),
    ensures
        parse_status(settings_file_lines(width, height, level, music)) == ParseStatus::Complete,
        int_entries(settings_file_lines(width, height, level, music)) == map![
            Configuration::WINDOWED_WIDTH@ => width,
            Configuration::WINDOWED_HEIGHT@ => height,
        ],
        float_entries(settings_file_lines(width, height, level, music)) == Map::<
            Seq<char>,
            Seq<char>,
        >::empty(),
        string_entries(settings_file_lines(width, height, level, music)) == map![
            Configuration::LEVEL_NAME@ => level,
            Configuration::MUSIC_NAME@ => music,
        ],
{
    reveal_strlit("windowed_width");
    reveal_strlit("windowed_height");
    reveal_strlit("level_name");
    reveal_strlit("default_music");
    let ww = Configuration::WINDOWED_WIDTH@;
    let wh = Configuration::WINDOWED_HEIGHT@;
    let ln = Configuration::LEVEL_NAME@;
    let mn = Configuration::MUSIC_NAME@;
    assert(plain_label(ww));
    assert(plain_label(wh));
    assert(plain_label(ln));
    assert(plain_label(mn));
    lemma_int_line_reads_back(ww, width);
    lemma_int_line_reads_back(wh, height);
    lemma_text_line_reads_back(ln, level);
    lemma_text_line_reads_back(mn, music);
    let lines = settings_file_lines(width, height, level, music);
    let l3 = lines.drop_last();
    let l2 = l3.drop_last();
    let l1 = l2.drop_last();
    let l0 = l1.drop_last();
    assert(l0 =~= Seq::<Seq<char>>::empty());
    assert(l1 =~= seq![lines[0]]);
    assert(l2 =~= seq![lines[0], lines[1]]);
    assert(l3 =~= seq![lines[0], lines[1], lines[2]]);
    assert(l1.last() == lines[0]);
    assert(l2.last() == lines[1]);
    assert(l3.last() == lines[2]);
    assert(ww != wh);
    assert(ln != mn);
    assert(int_entries(l0) == Map::<Seq<char>, u32>::empty());
    assert(int_entries(l1) == int_entries(l0).insert(ww, width));
    assert(int_entries(l2) == int_entries(l1).insert(wh, height));
    assert(int_entries(l3) == int_entries(l2));
    assert(int_entries(lines) == int_entries(l3));
    assert(int_entries(lines) =~= map![ww => width, wh => height]);
    assert(float_entries(l0) == Map::<Seq<char>, Seq<char>>::empty());
    assert(float_entries(l1) == float_entries(l0));
    assert(float_entries(l2) == float_entries(l1));
    assert(float_entries(l3) == float_entries(l2));
    assert(float_entries(lines) == float_entries(l3));
    assert(float_entries(lines) =~= Map::<Seq<char>, Seq<char>>::empty());
    assert(string_entries(l0) == Map::<Seq<char>, Seq<char>>::empty());
    assert(string_entries(l1) == string_entries(l0));
    assert(string_entries(l2) == string_entries(l1));
    assert(string_entries(l3) == string_entries(l2).insert(ln, level));
    assert(string_entries(lines) == string_entries(l3).insert(mn, music));
    assert(string_entries(lines) =~= map![ln => level, mn => music]);
    assert(parse_status(l0) == ParseStatus::Complete);
    assert(parse_status(l1) == ParseStatus::Complete);
    assert(parse_status(l2) == ParseStatus::Complete);
    assert(parse_status(l3) == ParseStatus::Complete);
    assert(parse_status(lines) == ParseStatus::Complete);
}

/// A line whose first token starts with `'#'` is a comment, whatever the
/// number of its tokens, and a line with no tokens is blank: both are
/// skipped, so appending one changes neither where reading stops nor any
/// option read.
pub proof fn law_comment_and_blank_lines_skipped(l: Seq<char>, lines: Seq<Seq<char>>)
    requires
        split_whitespace(l).len() == 0 || split_whitespace(l)[0][0] == '#',
    ensures
        line_kind(l) == LineKind::Skip,
        parse_status(lines.push(l)) == parse_status(lines),
        int_entries(lines.push(l)) == int_entries(lines),
        float_entries(lines.push(l)) == float_entries(lines),
        string_entries(lines.push(l)) == string_entries(lines),
{
    assert(lines.push(l).drop_last() =~= lines);
    assert(lines.push(l).last() == l);
}

/// A line `name = digits`, with a name that is not a comment, reads as the
/// integer that the digits write, under that name, when it fits in a `u32`.
pub proof fn law_int_setting_line(name: Seq<char>, digits: Seq<char>)
    requires
        plain_label(name),
        digits.len() > 0,
        all_digits(digits),
        decimal_value(digits) <= u32::MAX,
    ensures
        line_kind(setting_line(name, digits)) == LineKind::Int,
        line_key(setting_line(name, digits)) == name,
        decimal_value(line_value(setting_line(name, digits))) == decimal_value(digits),
{
    assert(no_ws(digits)) by {
        assert forall|i: int| 0 <= i < digits.len() implies !#[trigger] crate::text::is_ws(
            digits[i],
        ) by {
            assert(is_digit(digits[i]));
        }
    }
    lemma_digits_no_dots(digits);
    lemma_setting_line_tokens(name, digits);
    assert(split_whitespace(setting_line(name, digits))[0] == name);
    assert(digits_and_dots(digits));
}

/// A non-comment line of any number of tokens other than three is malformed.
pub proof fn law_wrong_token_count_is_malformed(l: Seq<char>)
    requires
        split_whitespace(l).len() > 0,
        split_whitespace(l).len() != 3,
        split_whitespace(l)[0][0] != '#',
    ensures
        line_kind(l) == LineKind::Malformed,
{
}

/// The settings of the game: integer, number and text options by name.
/// Number options are kept as written; they are read as floats where they are used.
pub struct Configuration {
    pub int_options: OptionTable<u32>,
    pub float_options: OptionTable<String>,
    pub string_options: OptionTable<String>,
}

impl Configuration {
    pub const WINDOWED_WIDTH: &'static str = "windowed_width";
    pub const WINDOWED_HEIGHT: &'static str = "windowed_height";
    pub const BGM_VOLUME: &'static str = "bgm_volume";
    pub const LEVEL_NAME: &'static str = "level_name";
    pub const MUSIC_NAME: &'static str = "default_music";
    pub const CONFIG_FILEPATH: &'static str = "settings.cfg";

    /// The settings-file line for the integer option `label`, if it is set.
    pub fn int_option_line(&self, label: &str) -> (r: Option<String>)
        ensures
            r is Some <==> self.int_options@.contains_key(label@),
            r matches Some(line) ==> line@ == setting_line(
                label@,
                decimal_digits(self.int_options@[label@] as nat),
            ),
    {
        match self.int_options.get(label) {
            Some(v) => {
                let mut line = String::from_str(label);
                push_char(&mut line, ' ');
                push_char(&mut line, '=');
                push_char(&mut line, ' ');
                push_decimal(&mut line, *v);
                assert(line@ =~= setting_line(label@, decimal_digits(*v as nat)));
                Some(line)
            },
            None => None,
        }
    }

    /// The settings-file line for the text option `label`, if it is set.
    pub fn string_option_line(&self, label: &str) -> (r: Option<String>)
        ensures
            r is Some <==> self.string_options@.contains_key(label@),
            r matches Some(line) ==> line@ == setting_line(label@, self.string_options@[label@]@),
    {
        match self.string_options.get(label) {
            Some(v) => {
                let mut line = String::from_str(label);
                push_char(&mut line, ' ');
                push_char(&mut line, '=');
                push_char(&mut line, ' ');
                line.append(v.as_str());
                assert(line@ =~= setting_line(label@, v@));
                Some(line)
            },
            None => None,
        }
    }

    /// The lines of the settings file: the window width and height, then the
    /// level name and the music name. Number options are not written.
    pub fn to_file_lines(&self) -> (lines: Vec<String>)
        requires
            self.int_options@.contains_key(Configuration::WINDOWED_WIDTH@),
            self.int_options@.contains_key(Configuration::WINDOWED_HEIGHT@),
            self.string_options@.contains_key(Configuration::LEVEL_NAME@),
            self.string_options@.contains_key(Configuration::MUSIC_NAME@),
        ensures
            line_views(lines@) == settings_file_lines(
                self.int_options@[Configuration::WINDOWED_WIDTH@],
                self.int_options@[Configuration::WINDOWED_HEIGHT@],
                self.string_options@[Configuration::LEVEL_NAME@]@,
                self.string_options@[Configuration::MUSIC_NAME@]@,
            ),
    {
        let mut lines: Vec<String> = Vec::new();
        lines.push(self.int_option_line(Configuration::WINDOWED_WIDTH).unwrap());
        lines.push(self.int_option_line(Configuration::WINDOWED_HEIGHT).unwrap());
        lines.push(self.string_option_line(Configuration::LEVEL_NAME).unwrap());
        lines.push(self.string_option_line(Configuration::MUSIC_NAME).unwrap());
        assert(line_views(lines@) =~= settings_file_lines(
            self.int_options@[Configuration::WINDOWED_WIDTH@],
            self.int_options@[Configuration::WINDOWED_HEIGHT@],
            self.string_options@[Configuration::LEVEL_NAME@]@,
            self.string_options@[Configuration::MUSIC_NAME@]@,
        ));
        lines
    }

    /// Whether both window dimensions are set.
    pub fn window_size_configured(&self) -> (b: bool)
        ensures
            b == (self.int_options@.contains_key(Configuration::WINDOWED_WIDTH@)
                && self.int_options@.contains_key(Configuration::WINDOWED_HEIGHT@)),
    {
        self.int_options.contains_key(Configuration::WINDOWED_WIDTH)
            && self.int_options.contains_key(Configuration::WINDOWED_HEIGHT)
    }

    /// The window size as (width, height): the configured one when both
    /// dimensions are set, 1280 by 720 otherwise.
    pub fn get_window_size(&self) -> (size: (u32, u32))
        ensures
            size == (if self.int_options@.contains_key(Configuration::WINDOWED_WIDTH@)
                && self.int_options@.contains_key(Configuration::WINDOWED_HEIGHT@) {
                (
                    self.int_options@[Configuration::WINDOWED_WIDTH@],
                    self.int_options@[Configuration::WINDOWED_HEIGHT@],
                )
            } else {
                (1280u32, 720u32)
            }),
    {
        match (
            self.int_options.get(Configuration::WINDOWED_WIDTH),
            self.int_options.get(Configuration::WINDOWED_HEIGHT),
        ) {
            (Some(width), Some(height)) => (*width, *height),
            _ => (1280, 720),
        }
    }

    /// Whether reading these lines would stop at an unreadable line, that is
    /// one that comes before any malformed line.
    pub fn lines_unreadable(lines: &Vec<String>) -> (b: bool)
        ensures
            b == (parse_status(line_views(lines@)) == ParseStatus::Unreadable),
    {
        let ghost views = line_views(lines@);
        let mut i: usize = 0;
        while i < lines.len()
            invariant
                i <= lines@.len(),
                views == line_views(lines@),
                parse_status(views.take(i as int)) == ParseStatus::Complete,
            decreases lines@.len() - i,
        {
            let kind = parse_config_line(lines[i].as_str());
            proof {
                assert(views.take(i as int + 1).drop_last() =~= views.take(i as int));
                assert(views.take(i as int + 1).last() == lines@[i as int]@);
            }
            match kind {
                ConfigLine::Malformed => {
                    proof {
                        lemma_status_sticky(views, i as int + 1);
                    }
                    return false;
                },
                ConfigLine::Unreadable => {
                    proof {
                        lemma_status_sticky(views, i as int + 1);
                    }
                    return true;
                },
                _ => {},
            }
            i = i + 1;
        }
        proof {
            assert(views.take(i as int) =~= views);
        }
        false
    }

    /// Reads the settings from the lines of a settings file; `None` when a
    /// malformed line comes first. Lines that `lines_unreadable` reports
    /// are not accepted.
    pub fn from_lines(lines: &Vec<String>) -> (r: Option<Self>)
        requires
            parse_status(line_views(lines@)) != ParseStatus::Unreadable,
        ensures
            r is Some <==> parse_status(line_views(lines@)) == ParseStatus::Complete,
            r matches Some(c) ==> {
                &&& c.int_options@ == int_entries(line_views(lines@))
                &&& text_values(c.float_options@) == float_entries(line_views(lines@))
                &&& text_values(c.string_options@) == string_entries(line_views(lines@))
            },
    {
        let ghost views = line_views(lines@);
        let mut int_options: OptionTable<u32> = OptionTable::with_capacity(2);
        let mut float_options: OptionTable<String> = OptionTable::with_capacity(1);
        let mut string_options: OptionTable<String> = OptionTable::with_capacity(2);
        assert(text_values(float_options@) =~= Map::<Seq<char>, Seq<char>>::empty());
        assert(text_values(string_options@) =~= Map::<Seq<char>, Seq<char>>::empty());
        let mut i: usize = 0;
        while i < lines.len()
            invariant
                i <= lines@.len(),
                views == line_views(lines@),
                parse_status(views) != ParseStatus::Unreadable,
                parse_status(views.take(i as int)) == ParseStatus::Complete,
                int_options@ == int_entries(views.take(i as int)),
                text_values(float_options@) == float_entries(views.take(i as int)),
                text_values(string_options@) == string_entries(views.take(i as int)),
            decreases lines@.len() - i,
        {
            let kind = parse_config_line(lines[i].as_str());
            let ghost pre = views.take(i as int);
            let ghost post = views.take(i as int + 1);
            proof {
                assert(post.drop_last() =~= pre);
                assert(post.last() == lines@[i as int]@);
            }
            match kind {
                ConfigLine::Skip => {},
                ConfigLine::Malformed => {
                    proof {
                        lemma_status_sticky(views, i as int + 1);
                    }
                    return None;
                },
                ConfigLine::Unreadable => {
                    proof {
                        lemma_status_sticky(views, i as int + 1);
                    }
                    return None;
                },
                ConfigLine::Int(k, v) => {
                    int_options.insert(k, v);
                },
                ConfigLine::Float(k, v) => {
                    let ghost old_map = float_options@;
                    let ghost kv = k@;
                    let ghost vv = v@;
                    float_options.insert(k, v);
                    assert(text_values(float_options@) =~= text_values(old_map).insert(kv, vv));
                },
                ConfigLine::Str(k, v) => {
                    let ghost old_map = string_options@;
                    let ghost kv = k@;
                    let ghost vv = v@;
                    string_options.insert(k, v);
                    assert(text_values(string_options@) =~= text_values(old_map).insert(kv, vv));
                },
            }
            i = i + 1;
        }
        proof {
            assert(views.take(i as int) =~= views);
        }
        Some(Configuration { int_options, float_options, string_options })
    }
}

} // verus!
