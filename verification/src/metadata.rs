//! The text file beside an exported texture: its settings, its nine-part values
//! and its animation, as they are written and read.

use vstd::prelude::*;
use vstd::slice::slice_subrange;
use vstd::string::StringExecFns;
use crate::edits::{AnimationModel, TextureAnimationImport};
use crate::entries::TextureSettings;
use crate::layout::Split9;
use crate::listing::{EntryModel, ExportedAnimation, ExportedModel, UtxEntry};
use crate::entries;
use crate::paths;
use crate::text;

verus! {

pub open spec fn bool_text(value: bool) -> Seq<char> {
    if value {
        "True"@
    } else {
        "False"@
    }
}

/// One line of the file.
pub open spec fn line_of(key: Seq<char>, value: Seq<char>) -> Seq<char> {
    key + "="@ + value + "\n"@
}

pub open spec fn bool_line(key: Seq<char>, value: Option<bool>) -> Seq<char> {
    match value {
        Some(v) => line_of(key, bool_text(v)),
        None => Seq::empty(),
    }
}

pub open spec fn number_line(key: Seq<char>, value: Option<i32>) -> Seq<char> {
    match value {
        Some(v) => line_of(key, text::decimal(v as int)),
        None => Seq::empty(),
    }
}

pub open spec fn text_line(key: Seq<char>, value: Option<Seq<char>>) -> Seq<char> {
    match value {
        Some(v) => line_of(key, v),
        None => Seq::empty(),
    }
}

/// The section on the settings of a texture, where it has any.
pub open spec fn settings_section(settings: TextureSettings) -> Seq<char> {
    if !entries::some_setting(settings) {
        Seq::empty()
    } else {
        "[Texture]\n"@ + bool_line("Alpha"@, settings.alpha) + bool_line(
            "Masked"@,
            settings.masked,
        ) + number_line("UClamp"@, settings.u_clamp) + number_line("VClamp"@, settings.v_clamp)
            + number_line("UClampMode"@, settings.u_clamp_mode) + number_line(
            "VClampMode"@,
            settings.v_clamp_mode,
        )
    }
}

/// The section on the parts of a nine-part texture.
pub open spec fn split9_section(split9: Split9) -> Seq<char> {
    "[Split9]\n"@ + number_line("Split9X1"@, Some(split9.x1)) + number_line(
        "Split9X2"@,
        Some(split9.x2),
    ) + number_line("Split9X3"@, Some(split9.x3)) + number_line("Split9Y1"@, Some(split9.y1))
        + number_line("Split9Y2"@, Some(split9.y2)) + number_line("Split9Y3"@, Some(split9.y3))
}

/// A value, where its property is stored.
pub open spec fn if_stored<T>(stored: bool, value: T) -> Option<T> {
    if stored {
        Some(value)
    } else {
        None
    }
}

/// The section on the animation of a texture. Frame rates are given as text.
pub open spec fn animation_section(
    animation: ExportedModel,
    max_rate: Seq<char>,
    min_rate: Seq<char>,
) -> Seq<char> {
    let stored = animation.properties;
    let values = animation.values;
    let next = match animation.anim_next {
        Some(path) => path,
        None => Seq::empty(),
    };
    "[Animations]\n"@ + text_line("AnimNext"@, if_stored(stored.anim_next, next)) + text_line(
        "MaxFrameRate"@,
        if_stored(stored.max_frame_rate, max_rate),
    ) + text_line("MinFrameRate"@, if_stored(stored.min_frame_rate, min_rate)) + bool_line(
        "OneTimeAnimLoop"@,
        if_stored(stored.one_time_anim_loop, values.one_time_anim_loop),
    ) + number_line("PrimeCount"@, if_stored(stored.prime_count, values.prime_count))
        + number_line("TotalFrameNum"@, if_stored(stored.total_frame_num, values.total_frame_num))
}

/// Text with a further section, behind an empty line where it is not the first.
pub open spec fn with_section(before: Seq<char>, section: Seq<char>) -> Seq<char> {
    if before.len() == 0 {
        section
    } else {
        before + "\n"@ + section
    }
}

/// The whole file for a texture, if there is anything to say of it.
pub open spec fn metadata_of(entry: EntryModel, max_rate: Seq<char>, min_rate: Seq<char>) -> Option<
    Seq<char>,
> {
    if !entries::some_setting(entry.settings) && !entry.has_split9 && entry.animation is None {
        None
    } else {
        let first = settings_section(entry.settings);
        let second = if entry.has_split9 {
            with_section(first, split9_section(entry.split9))
        } else {
            first
        };
        Some(
            match entry.animation {
                Some(animation) => with_section(
                    second,
                    animation_section(animation, max_rate, min_rate),
                ),
                None => second,
            },
        )
    }
}

fn push_line(content: &mut String, key: &str, value: &str)
    ensures
        final(content)@ == old(content)@ + line_of(key@, value@),
{
    let ghost before = content@;
    content.append(key);
    content.append("=");
    content.append(value);
    content.append("\n");
    assert(content@ =~= before + line_of(key@, value@));
}

fn push_bool(content: &mut String, key: &str, value: Option<bool>)
    ensures
        final(content)@ == old(content)@ + bool_line(key@, value),
{
    match value {
        Some(true) => push_line(content, key, "True"),
        Some(false) => push_line(content, key, "False"),
        None => {
            assert(content@ =~= content@ + bool_line(key@, value));
        },
    }
}

fn push_number(content: &mut String, key: &str, value: Option<i32>)
    ensures
        final(content)@ == old(content)@ + number_line(key@, value),
{
    match value {
        Some(v) => push_line(content, key, text::decimal_text(v as i64).as_str()),
        None => {
            assert(content@ =~= content@ + number_line(key@, value));
        },
    }
}

fn settings_text(settings: TextureSettings) -> (r: String)
    ensures
        r@ == settings_section(settings),
{
    let mut content = String::new();
    if settings.has_values() {
        content.append("[Texture]\n");
        assert(content@ =~= "[Texture]\n"@);
        push_bool(&mut content, "Alpha", settings.alpha);
        push_bool(&mut content, "Masked", settings.masked);
        push_number(&mut content, "UClamp", settings.u_clamp);
        push_number(&mut content, "VClamp", settings.v_clamp);
        push_number(&mut content, "UClampMode", settings.u_clamp_mode);
        push_number(&mut content, "VClampMode", settings.v_clamp_mode);
    }
    content
}

fn split9_text(split9: Split9) -> (r: String)
    ensures
        r@ == split9_section(split9),
{
    let mut content = String::new();
    content.append("[Split9]\n");
    assert(content@ =~= "[Split9]\n"@);
    push_number(&mut content, "Split9X1", Some(split9.x1));
    push_number(&mut content, "Split9X2", Some(split9.x2));
    push_number(&mut content, "Split9X3", Some(split9.x3));
    push_number(&mut content, "Split9Y1", Some(split9.y1));
    push_number(&mut content, "Split9Y2", Some(split9.y2));
    push_number(&mut content, "Split9Y3", Some(split9.y3));
    content
}

fn animation_text(animation: &ExportedAnimation, max_rate: &str, min_rate: &str) -> (r: String)
    ensures
        r@ == animation_section(animation@, max_rate@, min_rate@),
{
    let stored = animation.properties;
    let values = animation.values;
    let mut content = String::new();
    content.append("[Animations]\n");
    assert(content@ =~= "[Animations]\n"@);
    let ghost c0 = content@;
    if stored.anim_next {
        match &animation.anim_next {
            Some(path) => push_line(&mut content, "AnimNext", path.as_str()),
            None => {
                proof {
                    reveal_strlit("");
                    assert(""@ =~= Seq::<char>::empty());
                }
                push_line(&mut content, "AnimNext", "")
            },
        }
    }
    let next = match &animation.anim_next {
        Some(path) => path.as_str(),
        None => "",
    };
    proof {
        reveal_strlit("");
        assert(""@ =~= Seq::<char>::empty());
        assert(content@ =~= c0 + text_line("AnimNext"@, if_stored(stored.anim_next, next@)));
    }
    let ghost c1 = content@;
    if stored.max_frame_rate {
        push_line(&mut content, "MaxFrameRate", max_rate);
    }
    assert(content@ =~= c1 + text_line(
        "MaxFrameRate"@,
        if_stored(stored.max_frame_rate, max_rate@),
    ));
    let ghost c2 = content@;
    if stored.min_frame_rate {
        push_line(&mut content, "MinFrameRate", min_rate);
    }
    assert(content@ =~= c2 + text_line(
        "MinFrameRate"@,
        if_stored(stored.min_frame_rate, min_rate@),
    ));
    push_bool(
        &mut content,
        "OneTimeAnimLoop",
        if stored.one_time_anim_loop {
            Some(values.one_time_anim_loop)
        } else {
            None
        },
    );
    push_number(
        &mut content,
        "PrimeCount",
        if stored.prime_count {
            Some(values.prime_count)
        } else {
            None
        },
    );
    push_number(
        &mut content,
        "TotalFrameNum",
        if stored.total_frame_num {
            Some(values.total_frame_num)
        } else {
            None
        },
    );
    content
}

fn append_section(content: &mut String, section: &str)
    ensures
        final(content)@ == with_section(old(content)@, section@),
{
    let ghost before = content@;
    let empty = text::chars_of(content.as_str()).len() == 0;
    if !empty {
        content.append("\n");
    }
    content.append(section);
    assert(content@ =~= with_section(before, section@));
}

/// The text that goes with an exported texture, if there is anything to say of
/// it. The frame rates of its animation are given as they are to be written.
pub fn texture_metadata_text(entry: &UtxEntry, max_rate: &str, min_rate: &str) -> (r: Option<
    String,
>)
    ensures
        paths::part_result(r, metadata_of(entry@, max_rate@, min_rate@)),
{
    if !entry.settings.has_values() && !entry.has_split9 && entry.animation.is_none() {
        return None;
    }
    let mut content = settings_text(entry.settings);
    if entry.has_split9 {
        let section = split9_text(
            Split9 {
                x1: entry.split9_x1,
                x2: entry.split9_x2,
                x3: entry.split9_x3,
                y1: entry.split9_y1,
                y2: entry.split9_y2,
                y3: entry.split9_y3,
            },
        );
        append_section(&mut content, section.as_str());
    }
    if let Some(animation) = &entry.animation {
        let section = animation_text(animation, max_rate, min_rate);
        append_section(&mut content, section.as_str());
    }
    Some(content)
}

/// What a text file says so far. Frame rates are kept as they are written.
pub struct NotesModel {
    pub section: Seq<char>,
    pub settings: TextureSettings,
    pub x1: Option<i32>,
    pub x2: Option<i32>,
    pub x3: Option<i32>,
    pub y1: Option<i32>,
    pub y2: Option<i32>,
    pub y3: Option<i32>,
    pub anim_next: Option<Seq<char>>,
    pub max_rate: Option<Seq<char>>,
    pub min_rate: Option<Seq<char>>,
    pub one_time_anim_loop: Option<bool>,
    pub prime_count: Option<i32>,
    pub total_frame_num: Option<i32>,
}

pub open spec fn no_notes() -> NotesModel {
    NotesModel {
        section: Seq::empty(),
        settings: entries::no_settings(),
        x1: None,
        x2: None,
        x3: None,
        y1: None,
        y2: None,
        y3: None,
        anim_next: None,
        max_rate: None,
        min_rate: None,
        one_time_anim_loop: None,
        prime_count: None,
        total_frame_num: None,
    }
}

/// The flag that a value stands for.
pub open spec fn parsed_bool(value: Seq<char>) -> Option<bool> {
    let v = text::trimmed(value);
    if text::same_folded(v, "true"@) || text::same_folded(v, "1"@) || text::same_folded(v, "yes"@) || text::same_folded(
        v,
        "sim"@,
    ) {
        Some(true)
    } else if text::same_folded(v, "false"@) || text::same_folded(v, "0"@) || text::same_folded(v, "no"@)
        || text::same_folded(v, "não"@) || text::same_folded(v, "nao"@) {
        Some(false)
    } else {
        None
    }
}

/// A value that stays where its line holds no number.
pub open spec fn or_before(v: Option<i32>, before: Option<i32>) -> Option<i32> {
    if v is Some {
        v
    } else {
        before
    }
}

pub open spec fn split9_assigned(n: NotesModel, key: Seq<char>, value: Seq<char>) -> NotesModel {
    let v = text::parsed_i32(value);
    if text::same_folded(key, "Split9X1"@) {
        NotesModel { x1: or_before(v, n.x1), ..n }
    } else if text::same_folded(key, "Split9X2"@) {
        NotesModel { x2: or_before(v, n.x2), ..n }
    } else if text::same_folded(key, "Split9X3"@) {
        NotesModel { x3: or_before(v, n.x3), ..n }
    } else if text::same_folded(key, "Split9Y1"@) {
        NotesModel { y1: or_before(v, n.y1), ..n }
    } else if text::same_folded(key, "Split9Y2"@) {
        NotesModel { y2: or_before(v, n.y2), ..n }
    } else if text::same_folded(key, "Split9Y3"@) {
        NotesModel { y3: or_before(v, n.y3), ..n }
    } else {
        n
    }
}

pub open spec fn settings_assigned(s: TextureSettings, key: Seq<char>, value: Seq<char>) -> TextureSettings {
    if text::same_folded(key, "Alpha"@) || text::same_folded(key, "bAlphaTexture"@) {
        TextureSettings { alpha: parsed_bool(value), ..s }
    } else if text::same_folded(key, "Masked"@) || text::same_folded(key, "bMasked"@) {
        TextureSettings { masked: parsed_bool(value), ..s }
    } else if text::same_folded(key, "UClamp"@) {
        TextureSettings { u_clamp: text::parsed_i32(value), ..s }
    } else if text::same_folded(key, "VClamp"@) {
        TextureSettings { v_clamp: text::parsed_i32(value), ..s }
    } else if text::same_folded(key, "UClampMode"@) {
        TextureSettings { u_clamp_mode: text::parsed_i32(value), ..s }
    } else if text::same_folded(key, "VClampMode"@) {
        TextureSettings { v_clamp_mode: text::parsed_i32(value), ..s }
    } else {
        s
    }
}

pub open spec fn animation_assigned(n: NotesModel, key: Seq<char>, value: Seq<char>) -> NotesModel {
    if text::same_folded(key, "AnimNext"@) {
        NotesModel { anim_next: Some(value), ..n }
    } else if text::same_folded(key, "MaxFrameRate"@) {
        NotesModel { max_rate: Some(value), ..n }
    } else if text::same_folded(key, "MinFrameRate"@) {
        NotesModel { min_rate: Some(value), ..n }
    } else if text::same_folded(key, "OneTimeAnimLoop"@) {
        NotesModel { one_time_anim_loop: parsed_bool(value), ..n }
    } else if text::same_folded(key, "PrimeCount"@) {
        NotesModel { prime_count: text::parsed_i32(value), ..n }
    } else if text::same_folded(key, "TotalFrameNum"@) {
        NotesModel { total_frame_num: text::parsed_i32(value), ..n }
    } else {
        n
    }
}

/// What is known after a key and a value in the current section.
pub open spec fn assigned(n: NotesModel, key: Seq<char>, value: Seq<char>) -> NotesModel {
    if text::same_folded(n.section, "Split9"@) {
        split9_assigned(n, key, value)
    } else if text::same_folded(n.section, "Texture"@) {
        NotesModel { settings: settings_assigned(n.settings, key, value), ..n }
    } else if text::same_folded(n.section, "Animations"@) {
        animation_assigned(n, key, value)
    } else {
        n
    }
}

/// Whether a line names a section.
pub open spec fn names_section(line: Seq<char>) -> bool {
    line.len() >= 2 && line[0] == '[' && line.last() == ']'
}

/// What is known after one line.
pub open spec fn line_noted(n: NotesModel, whole: Seq<char>) -> NotesModel {
    let line = text::trimmed(whole);
    if names_section(line) {
        NotesModel { section: text::trimmed(line.subrange(1, line.len() - 1)), ..n }
    } else {
        match text::find_char(line, '=', 0) {
            Some(i) => assigned(n, text::trimmed(line.take(i)), text::trimmed(line.skip(i + 1))),
            None => n,
        }
    }
}

/// What is known after the lines from `from` on.
pub open spec fn notes_from(s: Seq<char>, from: int, n: NotesModel) -> NotesModel
    decreases s.len() - from,
{
    if from < 0 || from >= s.len() {
        n
    } else {
        let end = text::line_end(s, from);
        let after = line_noted(n, s.subrange(from, end));
        if end < from || end >= s.len() {
            after
        } else {
            notes_from(s, end + 1, after)
        }
    }
}

/// What a text file beside a texture says.
#[derive(Debug)]
pub struct MetadataNotes {
    pub section: String,
    pub settings: TextureSettings,
    pub x1: Option<i32>,
    pub x2: Option<i32>,
    pub x3: Option<i32>,
    pub y1: Option<i32>,
    pub y2: Option<i32>,
    pub y3: Option<i32>,
    pub anim_next: Option<String>,
    pub max_rate: Option<String>,
    pub min_rate: Option<String>,
    pub one_time_anim_loop: Option<bool>,
    pub prime_count: Option<i32>,
    pub total_frame_num: Option<i32>,
}

pub open spec fn seen_text(text: Option<String>) -> Option<Seq<char>> {
    match text {
        Some(t) => Some(t@),
        None => None,
    }
}

impl View for MetadataNotes {
    type V = NotesModel;

    open spec fn view(&self) -> NotesModel {
        NotesModel {
            section: self.section@,
            settings: self.settings,
            x1: self.x1,
            x2: self.x2,
            x3: self.x3,
            y1: self.y1,
            y2: self.y2,
            y3: self.y3,
            anim_next: seen_text(self.anim_next),
            max_rate: seen_text(self.max_rate),
            min_rate: seen_text(self.min_rate),
            one_time_anim_loop: self.one_time_anim_loop,
            prime_count: self.prime_count,
            total_frame_num: self.total_frame_num,
        }
    }
}

pub fn parse_metadata_bool(value: &[char]) -> (r: Option<bool>)
    ensures
        r == parsed_bool(value@),
{
    let text = text::text_of(text::trim(value));
    let v = text.as_str();
    if text::equals_folded(v, "true") || text::equals_folded(v, "1") || text::equals_folded(v, "yes")
        || text::equals_folded(v, "sim") {
        Some(true)
    } else if text::equals_folded(v, "false") || text::equals_folded(v, "0") || text::equals_folded(v, "no")
        || text::equals_folded(v, "não") || text::equals_folded(v, "nao") {
        Some(false)
    } else {
        None
    }
}

fn or_earlier(v: Option<i32>, before: Option<i32>) -> (r: Option<i32>)
    ensures
        r == or_before(v, before),
{
    match v {
        Some(n) => Some(n),
        None => before,
    }
}

fn assign_split9(n: &mut MetadataNotes, key: &str, value: &[char])
    ensures
        final(n)@ == split9_assigned(old(n)@, key@, value@),
{
    let v = text::parse_i32(value);
    if text::equals_folded(key, "Split9X1") {
        n.x1 = or_earlier(v, n.x1);
    } else if text::equals_folded(key, "Split9X2") {
        n.x2 = or_earlier(v, n.x2);
    } else if text::equals_folded(key, "Split9X3") {
        n.x3 = or_earlier(v, n.x3);
    } else if text::equals_folded(key, "Split9Y1") {
        n.y1 = or_earlier(v, n.y1);
    } else if text::equals_folded(key, "Split9Y2") {
        n.y2 = or_earlier(v, n.y2);
    } else if text::equals_folded(key, "Split9Y3") {
        n.y3 = or_earlier(v, n.y3);
    }
}

fn assign_settings(s: &mut TextureSettings, key: &str, value: &[char])
    ensures
        *final(s) == settings_assigned(*old(s), key@, value@),
{
    if text::equals_folded(key, "Alpha") || text::equals_folded(key, "bAlphaTexture") {
        s.alpha = parse_metadata_bool(value);
    } else if text::equals_folded(key, "Masked") || text::equals_folded(key, "bMasked") {
        s.masked = parse_metadata_bool(value);
    } else if text::equals_folded(key, "UClamp") {
        s.u_clamp = text::parse_i32(value);
    } else if text::equals_folded(key, "VClamp") {
        s.v_clamp = text::parse_i32(value);
    } else if text::equals_folded(key, "UClampMode") {
        s.u_clamp_mode = text::parse_i32(value);
    } else if text::equals_folded(key, "VClampMode") {
        s.v_clamp_mode = text::parse_i32(value);
    }
}

fn assign_animation(n: &mut MetadataNotes, key: &str, value: &[char])
    ensures
        final(n)@ == animation_assigned(old(n)@, key@, value@),
{
    if text::equals_folded(key, "AnimNext") {
        n.anim_next = Some(text::text_of(value));
    } else if text::equals_folded(key, "MaxFrameRate") {
        n.max_rate = Some(text::text_of(value));
    } else if text::equals_folded(key, "MinFrameRate") {
        n.min_rate = Some(text::text_of(value));
    } else if text::equals_folded(key, "OneTimeAnimLoop") {
        n.one_time_anim_loop = parse_metadata_bool(value);
    } else if text::equals_folded(key, "PrimeCount") {
        n.prime_count = text::parse_i32(value);
    } else if text::equals_folded(key, "TotalFrameNum") {
        n.total_frame_num = text::parse_i32(value);
    }
}

fn note_line(n: &mut MetadataNotes, whole: &[char])
    ensures
        final(n)@ == line_noted(old(n)@, whole@),
{
    let line = text::trim(whole);
    let end: usize = line.len();
    if end >= 2 && line[0] == '[' && line[end - 1] == ']' {
        n.section = text::text_of(text::trim(slice_subrange(line, 1, end - 1)));
    } else if let Some(i) = text::position_of(line, '=', 0) {
        assert(line@.subrange(0, i as int) =~= line@.take(i as int));
        assert(line@.subrange(i + 1, end as int) =~= line@.skip(i + 1));
        let key = text::text_of(text::trim(slice_subrange(line, 0, i)));
        let value = text::trim(slice_subrange(line, i + 1, end));
        if text::equals_folded(n.section.as_str(), "Split9") {
            assign_split9(n, key.as_str(), value);
        } else if text::equals_folded(n.section.as_str(), "Texture") {
            assign_settings(&mut n.settings, key.as_str(), value);
        } else if text::equals_folded(n.section.as_str(), "Animations") {
            assign_animation(n, key.as_str(), value);
        }
    }
}

/// Reads the text file beside a texture.
pub fn parse_texture_metadata(content: &str) -> (r: MetadataNotes)
    ensures
        r@ == notes_from(content@, 0, no_notes()),
{
    let chars = text::chars_of(content);
    let mut notes = MetadataNotes {
        section: String::new(),
        settings: TextureSettings {
            alpha: None,
            masked: None,
            u_clamp: None,
            v_clamp: None,
            u_clamp_mode: None,
            v_clamp_mode: None,
        },
        x1: None,
        x2: None,
        x3: None,
        y1: None,
        y2: None,
        y3: None,
        anim_next: None,
        max_rate: None,
        min_rate: None,
        one_time_anim_loop: None,
        prime_count: None,
        total_frame_num: None,
    };
    assert(notes@.section =~= Seq::<char>::empty());
    let total: usize = chars.len();
    let mut from: usize = 0;
    while from < total
        invariant
            from <= total,
            total == chars@.len(),
            notes_from(chars@, 0, no_notes()) == notes_from(chars@, from as int, notes@),
        decreases total - from,
    {
        match text::position_of(chars.as_slice(), '\n', from) {
            Some(end) => {
                note_line(&mut notes, slice_subrange(chars.as_slice(), from, end));
                from = end + 1;
            },
            None => {
                note_line(&mut notes, slice_subrange(chars.as_slice(), from, total));
                from = total;
            },
        }
    }
    notes
}

/// What a texture is to be given beside its pixels.
#[derive(Debug)]
pub struct TextureMetadata {
    pub settings: TextureSettings,
    pub split9: Option<Split9>,
    pub animation: Option<TextureAnimationImport>,
}

pub struct MetadataModel {
    pub settings: TextureSettings,
    pub split9: Option<Split9>,
    pub animation: Option<AnimationModel>,
}

impl View for TextureMetadata {
    type V = MetadataModel;

    open spec fn view(&self) -> MetadataModel {
        MetadataModel {
            settings: self.settings,
            split9: self.split9,
            animation: match self.animation {
                Some(animation) => Some(animation@),
                None => None,
            },
        }
    }
}

pub open spec fn no_metadata() -> MetadataModel {
    MetadataModel { settings: entries::no_settings(), split9: None, animation: None }
}

impl Default for TextureMetadata {
    fn default() -> (r: Self)
        ensures
            r@ == no_metadata(),
    {
        TextureMetadata {
            settings: TextureSettings {
                alpha: None,
                masked: None,
                u_clamp: None,
                v_clamp: None,
                u_clamp_mode: None,
                v_clamp_mode: None,
            },
            split9: None,
            animation: None,
        }
    }
}

/// Whether any value of an animation is given.
pub open spec fn some_animation(a: AnimationModel) -> bool {
    a.anim_next is Some || a.max_frame_rate is Some || a.min_frame_rate is Some
        || a.one_time_anim_loop is Some || a.prime_count is Some || a.total_frame_num is Some
}

pub open spec fn or_nothing(v: Option<i32>) -> i32 {
    match v {
        Some(n) => n,
        None => 0,
    }
}

/// What the notes ask for, once their frame rates are read as numbers.
pub open spec fn metadata_from(n: NotesModel, max_rate: Option<u32>, min_rate: Option<u32>) -> MetadataModel {
    let animation = AnimationModel {
        anim_next: n.anim_next,
        max_frame_rate: max_rate,
        min_frame_rate: min_rate,
        one_time_anim_loop: n.one_time_anim_loop,
        prime_count: n.prime_count,
        total_frame_num: n.total_frame_num,
    };
    MetadataModel {
        settings: n.settings,
        split9: match n.x1 {
            Some(x1) => Some(
                Split9 {
                    x1,
                    x2: or_nothing(n.x2),
                    x3: or_nothing(n.x3),
                    y1: or_nothing(n.y1),
                    y2: or_nothing(n.y2),
                    y3: or_nothing(n.y3),
                },
            ),
            None => None,
        },
        animation: if some_animation(animation) {
            Some(animation)
        } else {
            None
        },
    }
}

impl TextureAnimationImport {
    pub fn has_values(&self) -> (r: bool)
        ensures
            r == some_animation(self@),
    {
        self.anim_next.is_some() || self.max_frame_rate.is_some() || self.min_frame_rate.is_some()
            || self.one_time_anim_loop.is_some() || self.prime_count.is_some()
            || self.total_frame_num.is_some()
    }
}

fn or_zero_number(v: Option<i32>) -> (r: i32)
    ensures
        r == or_nothing(v),
{
    match v {
        Some(n) => n,
        None => 0,
    }
}

impl MetadataNotes {
    /// What the notes ask for. The frame rates are the bits of the numbers that
    /// `max_rate` and `min_rate` hold, where they hold any.
    pub fn metadata(self, max_rate: Option<u32>, min_rate: Option<u32>) -> (r: TextureMetadata)
        ensures
            r@ == metadata_from(self@, max_rate, min_rate),
    {
        let split9 = match self.x1 {
            Some(x1) => Some(
                Split9 {
                    x1,
                    x2: or_zero_number(self.x2),
                    x3: or_zero_number(self.x3),
                    y1: or_zero_number(self.y1),
                    y2: or_zero_number(self.y2),
                    y3: or_zero_number(self.y3),
                },
            ),
            None => None,
        };
        let animation = TextureAnimationImport {
            anim_next: self.anim_next,
            max_frame_rate: max_rate,
            min_frame_rate: min_rate,
            one_time_anim_loop: self.one_time_anim_loop,
            prime_count: self.prime_count,
            total_frame_num: self.total_frame_num,
        };
        let animation = if animation.has_values() {
            Some(animation)
        } else {
            None
        };
        TextureMetadata { settings: self.settings, split9, animation }
    }
}

} // verus!
