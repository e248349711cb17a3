//! The settings of a conversion.

use crate::path::{
    component_texts, components, is_absolute, join, join_paths, law_join_texts, law_parent_texts,
    law_plain_name, lossy_text, parent, parent_of, utf8_lossy, SLASH,
};
use crate::text::{
    decimal, is_digit, is_edge, law_decimal_value, law_numbers_are_read, law_parse_decimal,
    law_trim_gives_what_is_between, law_white_space, parse_u32, text_views, trim, trimmed,
    u32_of_text, Edge,
};
use vstd::prelude::*;
use vstd::slice::*;
use vstd::string::*;
use vstd::utf8::*;

verus! {

/// The format of the converted pages.
#[derive(Debug, Clone, Copy, PartialEq, Eq, Structural)]
pub enum OutputFormat {
    Webp,
    Svg,
}

/// The quality target 85, as the bits of an IEEE 754 double.
pub const TARGET_MEDIUM: u64 = 0x4055_4000_0000_0000;

/// The quality target 92, as the bits of an IEEE 754 double.
pub const TARGET_HIGH: u64 = 0x4057_0000_0000_0000;

/// The quality target 75, as the bits of an IEEE 754 double.
pub const TARGET_LOW: u64 = 0x4052_c000_0000_0000;

/// The settings of the application.
#[derive(Debug)]
pub struct AppConfig {
    /// The folder with the PDF files.
    pub source_path: Vec<u8>,
    /// The folder that the images go to.
    pub output_path: Vec<u8>,
    pub format: OutputFormat,
    pub dpi: u32,
    pub quality: u8,
    /// Whether the quality of each page is searched for.
    pub adaptive_encoding: bool,
    /// The score that the search aims at, as the bits of an IEEE 754 double.
    pub quality_target: u64,
    pub svg_precision: u8,
    pub svg_no_text: bool,
    pub svg_strip_background: bool,
    /// Whether files that were converted before are converted again.
    pub overwrite: bool,
}

impl Clone for AppConfig {
    fn clone(&self) -> (c: AppConfig)
        ensures
            c.source_path@ == self.source_path@,
            c.output_path@ == self.output_path@,
            c == (AppConfig {
                source_path: c.source_path,
                output_path: c.output_path,
                ..*self
            }),
    {
        AppConfig {
            source_path: slice_to_vec(self.source_path.as_slice()),
            output_path: slice_to_vec(self.output_path.as_slice()),
            format: self.format,
            dpi: self.dpi,
            quality: self.quality,
            adaptive_encoding: self.adaptive_encoding,
            quality_target: self.quality_target,
            svg_precision: self.svg_precision,
            svg_no_text: self.svg_no_text,
            svg_strip_background: self.svg_strip_background,
            overwrite: self.overwrite,
        }
    }
}

/// Whether `c` has the settings that nothing was asked of, but for its paths, its
/// resolution and whether it overwrites.
pub open spec fn has_default_settings(c: AppConfig) -> bool {
    &&& c.format == OutputFormat::Webp
    &&& c.quality == 75
    &&& c.adaptive_encoding
    &&& c.quality_target == TARGET_MEDIUM
    &&& c.svg_precision == 4
    &&& !c.svg_no_text
    &&& c.svg_strip_background
}

impl Default for AppConfig {
    fn default() -> (c: AppConfig)
        ensures
            c.source_path@.len() == 0,
            c.output_path@.len() == 0,
            c.dpi == 150,
            !c.overwrite,
            has_default_settings(c),
    {
        AppConfig {
            source_path: Vec::new(),
            output_path: Vec::new(),
            format: OutputFormat::Webp,
            dpi: 150,
            quality: 75,
            adaptive_encoding: true,
            quality_target: TARGET_MEDIUM,
            svg_precision: 4,
            svg_no_text: false,
            svg_strip_background: true,
            overwrite: false,
        }
    }
}

/// A list of one text, or none.
pub open spec fn text_if(b: bool, t: Seq<char>) -> Seq<Seq<char>> {
    if b {
        seq![t]
    } else {
        Seq::empty()
    }
}

/// What is wrong with the source path, given whether it is there and is a directory.
pub open spec fn source_errors(path: Seq<u8>, present: bool, is_dir: bool) -> Seq<Seq<char>> {
    if path.len() == 0 {
        seq!["Source path is not set"@]
    } else if !present {
        seq!["Source path does not exist: "@ + utf8_lossy(path)]
    } else if !is_dir {
        seq!["Source path is not a directory: "@ + utf8_lossy(path)]
    } else {
        Seq::empty()
    }
}

/// What is wrong with the settings of the output format.
pub open spec fn format_errors(c: AppConfig) -> Seq<Seq<char>> {
    match c.format {
        OutputFormat::Webp => text_if(
            c.dpi < 90 || c.dpi > 200,
            "DPI must be between 90 and 200"@,
        ) + text_if(c.quality == 0 || c.quality > 100, "Quality must be between 1 and 100"@),
        OutputFormat::Svg => text_if(
            c.svg_precision < 1 || c.svg_precision > 10,
            "SVG precision must be between 1 and 10"@,
        ),
    }
}

/// What is wrong with the settings, the source path first.
pub open spec fn config_errors(c: AppConfig, present: bool, is_dir: bool) -> Seq<Seq<char>> {
    source_errors(c.source_path@, present, is_dir) + text_if(
        c.output_path@.len() == 0,
        "Output path is not set"@,
    ) + format_errors(c)
}

/// Whether the settings can be used.
pub open spec fn is_usable(c: AppConfig, present: bool, is_dir: bool) -> bool {
    &&& c.source_path@.len() > 0 && present && is_dir
    &&& c.output_path@.len() > 0
    &&& c.format == OutputFormat::Webp ==> 90 <= c.dpi <= 200 && 1 <= c.quality <= 100
    &&& c.format == OutputFormat::Svg ==> 1 <= c.svg_precision <= 10
}

/// Settings are found free of errors exactly where they can be used.
pub proof fn law_no_errors_iff_usable(c: AppConfig, present: bool, is_dir: bool)
    ensures
        config_errors(c, present, is_dir).len() == 0 <==> is_usable(c, present, is_dir),
{
}

fn push_text(list: &mut Vec<String>, t: &str)
    ensures
        text_views(final(list)@) == text_views(old(list)@).push(t@),
{
    list.push(t.to_owned());
    assert(text_views(list@) =~= text_views(old(list)@).push(t@));
}

impl AppConfig {
    /// Checks the settings, given whether the source path is there and is a directory.
    /// The list holds a message for each thing that is wrong.
    #[must_use]
    pub fn validate(&self, present: bool, is_dir: bool) -> (errors: Vec<String>)
        ensures
            text_views(errors@) == config_errors(*self, present, is_dir),
    {
        let mut errors: Vec<String> = Vec::new();
        assert(text_views(errors@) =~= Seq::empty());
        if self.source_path.len() == 0 {
            push_text(&mut errors, "Source path is not set");
        } else if !present {
            let mut t: String = "Source path does not exist: ".to_owned();
            t.append(lossy_text(self.source_path.as_slice()).as_str());
            push_text(&mut errors, t.as_str());
        } else if !is_dir {
            let mut t: String = "Source path is not a directory: ".to_owned();
            t.append(lossy_text(self.source_path.as_slice()).as_str());
            push_text(&mut errors, t.as_str());
        }
        assert(text_views(errors@) =~= source_errors(self.source_path@, present, is_dir));
        if self.output_path.len() == 0 {
            push_text(&mut errors, "Output path is not set");
        }
        let ghost so_far = text_views(errors@);
        match self.format {
            OutputFormat::Webp => {
                if self.dpi < 90 || self.dpi > 200 {
                    push_text(&mut errors, "DPI must be between 90 and 200");
                }
                if self.quality == 0 || self.quality > 100 {
                    push_text(&mut errors, "Quality must be between 1 and 100");
                }
            },
            OutputFormat::Svg => {
                if self.svg_precision < 1 || self.svg_precision > 10 {
                    push_text(&mut errors, "SVG precision must be between 1 and 10");
                }
            },
        }
        assert(text_views(errors@) =~= so_far + format_errors(*self));
        assert(so_far =~= source_errors(self.source_path@, present, is_dir) + text_if(
            self.output_path@.len() == 0,
            "Output path is not set"@,
        ));
        errors
    }
}

/// The settings for a run whose two folders are given on the command line.
pub fn build_config_from_args(
    source: Vec<u8>,
    output: Vec<u8>,
    dpi: u32,
    overwrite: bool,
) -> (c: AppConfig)
    ensures
        c.source_path == source,
        c.output_path == output,
        c.dpi == dpi,
        c.overwrite == overwrite,
        has_default_settings(c),
{
    AppConfig {
        source_path: source,
        output_path: output,
        format: OutputFormat::Webp,
        dpi,
        quality: 75,
        adaptive_encoding: true,
        quality_target: TARGET_MEDIUM,
        svg_precision: 4,
        svg_no_text: false,
        svg_strip_background: true,
        overwrite,
    }
}

// ---------------------------------------------------------------------------
// The guided setup
// ---------------------------------------------------------------------------

/// The path in a line of input: without white space around it, nor apostrophes
/// around what is left.
pub fn clean_path_input<'a>(input: &'a str) -> (r: &'a str)
    ensures
        r@ == trimmed(Edge::Quote, trimmed(Edge::Blank, input@)),
{
    trim(Edge::Quote, trim(Edge::Blank, input))
}

/// The folder that is proposed for the output: `webp-output` beside the source.
pub open spec fn proposed_output(source: Seq<u8>) -> Seq<u8> {
    let beside = match parent(source) {
        Some(p) => p,
        None => source,
    };
    join(beside, encode_utf8("webp-output"@))
}

/// Proposes a folder for the output.
pub fn default_output_path(source: &[u8]) -> (r: Vec<u8>)
    ensures
        r@ == proposed_output(source@),
{
    match parent_of(source) {
        Some(p) => join_paths(p.as_slice(), "webp-output".as_bytes()),
        None => join_paths(source, "webp-output".as_bytes()),
    }
}

/// What is wrong with a resolution that was typed in, if anything.
pub open spec fn dpi_input_error(input: Seq<char>) -> Option<Seq<char>> {
    match u32_of_text(trimmed(Edge::Blank, input)) {
        None => Some("Please enter a number"@),
        Some(v) => if 50 <= v <= 300 {
            None
        } else {
            Some("DPI must be between 50 and 300"@)
        },
    }
}

/// Checks a resolution that was typed in.
pub fn check_dpi_input(input: &str) -> (r: Result<(), &'static str>)
    ensures
        match r {
            Ok(_) => dpi_input_error(input@) is None,
            Err(e) => dpi_input_error(input@) == Some(e@),
        },
{
    match parse_u32(trim(Edge::Blank, input)) {
        None => Err("Please enter a number"),
        Some(v) => if v >= 50 && v <= 300 {
            Ok(())
        } else {
            Err("DPI must be between 50 and 300")
        },
    }
}

/// The quality levels to choose from, in the order in which they are offered.
#[derive(Debug, Clone, Copy, PartialEq, Eq, Structural)]
pub enum Preset {
    Medium,
    High,
    Low,
    Custom,
}

/// The quality level at a place in the list.
pub fn preset_at(index: usize) -> (r: Option<Preset>)
    ensures
        r == (match index {
            0 => Some(Preset::Medium),
            1 => Some(Preset::High),
            2 => Some(Preset::Low),
            3 => Some(Preset::Custom),
            _ => None,
        }),
{
    match index {
        0 => Some(Preset::Medium),
        1 => Some(Preset::High),
        2 => Some(Preset::Low),
        3 => Some(Preset::Custom),
        _ => None,
    }
}

/// The resolution of a quality level; `input` is what was typed in for a custom one.
pub open spec fn preset_dpi(preset: Preset, input: Seq<char>) -> u32 {
    match preset {
        Preset::Medium => 150,
        Preset::High => 200,
        Preset::Low => 90,
        Preset::Custom => match u32_of_text(trimmed(Edge::Blank, input)) {
            Some(v) => v,
            None => 150,
        },
    }
}

/// The quality target of a quality level.
pub open spec fn preset_target(preset: Preset) -> u64 {
    match preset {
        Preset::Medium => TARGET_MEDIUM,
        Preset::High => TARGET_HIGH,
        Preset::Low => TARGET_LOW,
        Preset::Custom => TARGET_MEDIUM,
    }
}

/// Puts a quality level into the settings.
pub fn apply_preset(config: &mut AppConfig, preset: Preset, input: &str)
    ensures
        *final(config) == (AppConfig {
            dpi: preset_dpi(preset, input@),
            adaptive_encoding: true,
            quality_target: preset_target(preset),
            ..*old(config)
        }),
{
    config.dpi = match preset {
        Preset::Medium => 150,
        Preset::High => 200,
        Preset::Low => 90,
        Preset::Custom => match parse_u32(trim(Edge::Blank, input)) {
            Some(v) => v,
            None => 150,
        },
    };
    config.adaptive_encoding = true;
    config.quality_target = match preset {
        Preset::Medium => TARGET_MEDIUM,
        Preset::High => TARGET_HIGH,
        Preset::Low => TARGET_LOW,
        Preset::Custom => TARGET_MEDIUM,
    };
}

/// The three quality levels with a resolution of their own are within the range that
/// the settings accept.
pub proof fn law_presets_are_accepted(preset: Preset, input: Seq<char>)
    requires
        preset != Preset::Custom,
    ensures
        90 <= preset_dpi(preset, input) <= 200,
{
}

// ---------------------------------------------------------------------------
// Laws of the settings
// ---------------------------------------------------------------------------

/// Each thing that is wrong with the settings has its own message, which is there exactly where
/// that thing is wrong; what counts for one format only is left alone for the other.
pub proof fn law_each_fault_is_named(c: AppConfig, present: bool, is_dir: bool)
    ensures
        ({
            let errors = config_errors(c, present, is_dir);
            let webp = c.format == OutputFormat::Webp;
            let svg = c.format == OutputFormat::Svg;
            &&& c.source_path@.len() == 0 ==> errors.contains("Source path is not set"@)
            &&& c.source_path@.len() > 0 && !present ==> errors.contains(
                "Source path does not exist: "@ + utf8_lossy(c.source_path@),
            )
            &&& c.source_path@.len() > 0 && present && !is_dir ==> errors.contains(
                "Source path is not a directory: "@ + utf8_lossy(c.source_path@),
            )
            &&& c.output_path@.len() == 0 ==> errors.contains("Output path is not set"@)
            &&& webp && (c.dpi < 90 || c.dpi > 200) ==> errors.contains(
                "DPI must be between 90 and 200"@,
            )
            &&& webp && (c.quality < 1 || c.quality > 100) ==> errors.contains(
                "Quality must be between 1 and 100"@,
            )
            &&& svg && (c.svg_precision < 1 || c.svg_precision > 10) ==> errors.contains(
                "SVG precision must be between 1 and 10"@,
            )
            &&& errors.len() == (if c.source_path@.len() == 0 || !present || !is_dir {
                1int
            } else {
                0
            }) + (if c.output_path@.len() == 0 {
                1int
            } else {
                0
            }) + (if webp && (c.dpi < 90 || c.dpi > 200) {
                1int
            } else {
                0
            }) + (if webp && (c.quality < 1 || c.quality > 100) {
                1int
            } else {
                0
            }) + (if svg && (c.svg_precision < 1 || c.svg_precision > 10) {
                1int
            } else {
                0
            })
        }),
{
    let a = source_errors(c.source_path@, present, is_dir);
    let b = text_if(c.output_path@.len() == 0, "Output path is not set"@);
    let f = format_errors(c);
    let errors = config_errors(c, present, is_dir);
    assert(errors =~= a + b + f);
    if a.len() > 0 {
        assert(errors[0] == a[0]);
    }
    if b.len() > 0 {
        assert(errors[a.len() as int] == b[0]);
    }
    let n = (a.len() + b.len()) as int;
    if f.len() > 0 {
        assert(errors[n] == f[0]);
    }
    if f.len() > 1 {
        assert(errors[n + 1] == f[1]);
    }
}

/// A resolution that is typed in, with blanks around it or not, is accepted exactly from 50 to 300,
/// and where it is no number a number is asked for.
pub proof fn law_typed_resolutions(v: u32, a: Seq<char>, b: Seq<char>)
    requires
        forall|k: int| 0 <= k < a.len() ==> #[trigger] a[k] == ' ',
        forall|k: int| 0 <= k < b.len() ==> #[trigger] b[k] == ' ',
    ensures
        dpi_input_error(a + decimal(v as nat) + b) is None <==> 50 <= v <= 300,
        v < 50 || v > 300 ==> dpi_input_error(a + decimal(v as nat) + b) == Some(
            "DPI must be between 50 and 300"@,
        ),
        dpi_input_error(a) == Some("Please enter a number"@),
        preset_dpi(Preset::Custom, a + decimal(v as nat) + b) == v,
        preset_dpi(Preset::Custom, a) == 150,
{
    lemma_typed_number(v, a, b);
    assert(a + Seq::<char>::empty() + Seq::<char>::empty() =~= a);
    lemma_blanks(a);
    law_trim_gives_what_is_between(Edge::Blank, a, Seq::empty(), Seq::empty());
    law_numbers_are_read(seq!['0']);
}

proof fn lemma_blanks(a: Seq<char>)
    requires
        forall|k: int| 0 <= k < a.len() ==> #[trigger] a[k] == ' ',
    ensures
        forall|k: int| 0 <= k < a.len() ==> is_edge(Edge::Blank, #[trigger] a[k]),
{
    assert forall|k: int| 0 <= k < a.len() implies is_edge(Edge::Blank, #[trigger] a[k]) by {
        law_white_space(a[k]);
    }
}

proof fn lemma_typed_number(v: u32, a: Seq<char>, b: Seq<char>)
    requires
        forall|k: int| 0 <= k < a.len() ==> #[trigger] a[k] == ' ',
        forall|k: int| 0 <= k < b.len() ==> #[trigger] b[k] == ' ',
    ensures
        u32_of_text(trimmed(Edge::Blank, a + decimal(v as nat) + b)) == Some(v),
{
    let digits = decimal(v as nat);
    law_decimal_value(v as nat);
    lemma_blanks(a);
    lemma_blanks(b);
    assert(is_digit(digits[0]));
    assert(is_digit(digits[digits.len() - 1]));
    law_white_space(digits[0]);
    law_white_space(digits.last());
    law_trim_gives_what_is_between(Edge::Blank, a, digits, b);
    law_parse_decimal(v);
}

/// The quality levels differ in resolution and target, and a better one has more of both; a custom
/// one has the target of the middle.
pub proof fn law_presets_are_ordered(input: Seq<char>)
    ensures
        preset_dpi(Preset::Low, input) == 90,
        preset_dpi(Preset::Medium, input) == 150,
        preset_dpi(Preset::High, input) == 200,
        preset_target(Preset::Low) == 0x4052_c000_0000_0000,
        preset_target(Preset::Medium) == 0x4055_4000_0000_0000,
        preset_target(Preset::High) == 0x4057_0000_0000_0000,
        preset_target(Preset::Custom) == preset_target(Preset::Medium),
        preset_target(Preset::Low) < preset_target(Preset::Medium) < preset_target(Preset::High),
{
}

/// The settings that nothing was asked of can be used, once there are two folders.
pub proof fn law_default_settings_can_be_used(c: AppConfig)
    requires
        has_default_settings(c),
        c.source_path@.len() > 0,
        c.output_path@.len() > 0,
        90 <= c.dpi <= 200,
    ensures
        config_errors(c, true, true).len() == 0,
        c.format == OutputFormat::Webp,
        c.quality == 75,
        c.adaptive_encoding,
        c.quality_target == preset_target(Preset::Medium),
        c.svg_precision == 4,
        !c.svg_no_text,
        c.svg_strip_background,
{
}

/// A path that is typed in, between apostrophes or not, and with blanks around all that, is taken
/// as it is.
pub proof fn law_typed_path_is_cleaned(
    a: Seq<char>,
    quotes: Seq<char>,
    path: Seq<char>,
    more_quotes: Seq<char>,
    b: Seq<char>,
)
    requires
        forall|k: int| 0 <= k < a.len() ==> is_edge(Edge::Blank, #[trigger] a[k]),
        forall|k: int| 0 <= k < b.len() ==> is_edge(Edge::Blank, #[trigger] b[k]),
        forall|k: int| 0 <= k < quotes.len() ==> #[trigger] quotes[k] == '\'',
        forall|k: int| 0 <= k < more_quotes.len() ==> #[trigger] more_quotes[k] == '\'',
        path.len() > 0,
        path[0] != '\'' && path.last() != '\'',
        !is_edge(Edge::Blank, path[0]) && !is_edge(Edge::Blank, path.last()),
    ensures
        trimmed(Edge::Quote, trimmed(Edge::Blank, a + (quotes + path + more_quotes) + b)) == path,
{
    let middle = quotes + path + more_quotes;
    assert forall|k: int| 0 <= k < quotes.len() implies is_edge(Edge::Quote, #[trigger] quotes[k]) by {
        law_white_space(quotes[k]);
    }
    assert forall|k: int| 0 <= k < more_quotes.len() implies is_edge(
        Edge::Quote,
        #[trigger] more_quotes[k],
    ) by {
        law_white_space(more_quotes[k]);
    }
    law_white_space('\'');
    assert(middle[0] == if quotes.len() > 0 {
        quotes[0]
    } else {
        path[0]
    });
    assert(middle.last() == if more_quotes.len() > 0 {
        more_quotes.last()
    } else {
        path.last()
    });
    law_trim_gives_what_is_between(Edge::Blank, a, middle, b);
    law_trim_gives_what_is_between(Edge::Quote, quotes, path, more_quotes);
}

/// The folder that is proposed for the output lies beside the source folder, under a name of its
/// own.
pub proof fn law_output_is_proposed_beside_the_source(source: Seq<u8>)
    requires
        components(source).len() > 0,
    ensures
        component_texts(proposed_output(source)) == component_texts(source).drop_last().push(
            encode_utf8("webp-output"@),
        ),
        is_absolute(proposed_output(source)) == is_absolute(source),
{
    reveal_strlit("webp-output");
    let name = encode_utf8("webp-output"@);
    is_ascii_chars_encode_utf8("webp-output"@);
    assert forall|k: int| 0 <= k < name.len() implies name[k] != SLASH by {
        assert(name[k] == "webp-output"@[k] as u8);
    }
    assert(name.len() == 11);
    law_plain_name(name);
    law_parent_texts(source);
    let beside = parent(source)->0;
    law_join_texts(beside, name);
    assert(component_texts(beside) + seq![name] =~= component_texts(beside).push(name));
}

} // verus!
