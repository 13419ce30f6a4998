//! What the lines of the text beside a texture say, and what of it is asked for.

use vstd::prelude::*;
use crate::edits::AnimationModel;
use crate::entries::{AnimationPropertyPresence, TextureSettings};
use crate::imports::ImportedModel;
use crate::layout::Split9;
use crate::listing::EntryModel;
use crate::metadata::{MetadataModel, NotesModel};
use crate::formats;
use crate::imports;
use crate::metadata;
use crate::metadata_laws;
use crate::properties;
use crate::text;

verus! {

/// What tells the names of keys and sections apart: their length and four of their
/// letters.
spec fn key_mark(name: Seq<char>) -> (int, char, char, char, char) {
    let s = text::lower_text(name);
    let n = s.len() as int;
    (n, s[0], s[1], s[n - 2], s[n - 1])
}

proof fn keys_differ()
    ensures
        key_mark("Split9X1"@) == (8int, 's', 'p', 'x', '1'),
        key_mark("Split9X2"@) == (8int, 's', 'p', 'x', '2'),
        key_mark("Split9X3"@) == (8int, 's', 'p', 'x', '3'),
        key_mark("Split9Y1"@) == (8int, 's', 'p', 'y', '1'),
        key_mark("Split9Y2"@) == (8int, 's', 'p', 'y', '2'),
        key_mark("Split9Y3"@) == (8int, 's', 'p', 'y', '3'),
        key_mark("Alpha"@) == (5int, 'a', 'l', 'h', 'a'),
        key_mark("bAlphaTexture"@) == (13int, 'b', 'a', 'r', 'e'),
        key_mark("Masked"@) == (6int, 'm', 'a', 'e', 'd'),
        key_mark("bMasked"@) == (7int, 'b', 'm', 'e', 'd'),
        key_mark("UClamp"@) == (6int, 'u', 'c', 'm', 'p'),
        key_mark("VClamp"@) == (6int, 'v', 'c', 'm', 'p'),
        key_mark("UClampMode"@) == (10int, 'u', 'c', 'd', 'e'),
        key_mark("VClampMode"@) == (10int, 'v', 'c', 'd', 'e'),
        key_mark("AnimNext"@) == (8int, 'a', 'n', 'x', 't'),
        key_mark("MaxFrameRate"@) == (12int, 'm', 'a', 't', 'e'),
        key_mark("MinFrameRate"@) == (12int, 'm', 'i', 't', 'e'),
        key_mark("OneTimeAnimLoop"@) == (15int, 'o', 'n', 'o', 'p'),
        key_mark("PrimeCount"@) == (10int, 'p', 'r', 'n', 't'),
        key_mark("TotalFrameNum"@) == (13int, 't', 'o', 'u', 'm'),
        key_mark("Split9"@) == (6int, 's', 'p', 't', '9'),
        key_mark("Texture"@) == (7int, 't', 'e', 'r', 'e'),
        key_mark("Animations"@) == (10int, 'a', 'n', 'n', 's'),
{
    reveal_strlit("Split9X1");
    reveal_strlit("Split9X2");
    reveal_strlit("Split9X3");
    reveal_strlit("Split9Y1");
    reveal_strlit("Split9Y2");
    reveal_strlit("Split9Y3");
    reveal_strlit("Alpha");
    reveal_strlit("bAlphaTexture");
    reveal_strlit("Masked");
    reveal_strlit("bMasked");
    reveal_strlit("UClamp");
    reveal_strlit("VClamp");
    reveal_strlit("UClampMode");
    reveal_strlit("VClampMode");
    reveal_strlit("AnimNext");
    reveal_strlit("MaxFrameRate");
    reveal_strlit("MinFrameRate");
    reveal_strlit("OneTimeAnimLoop");
    reveal_strlit("PrimeCount");
    reveal_strlit("TotalFrameNum");
    reveal_strlit("Split9");
    reveal_strlit("Texture");
    reveal_strlit("Animations");
}

/// A line with a key and a value is taken apart at its sign of equality.
proof fn line_is_assigned(key: Seq<char>, value: Seq<char>, n: NotesModel)
    requires
        metadata_laws::is_key(key),
        metadata_laws::is_bare(value),
    ensures
        metadata::line_noted(n, key + "="@ + value) == metadata::assigned(n, key, value),
{
    reveal_strlit("=");
    let line = key + "="@ + value;
    text::find_char_is_first(line, '=', 0);
    assert(line[key.len() as int] == '=');
    assert forall|i: int| 0 <= i < key.len() implies line[i] != '=' by {
        assert(line[i] == key[i]);
        assert(key.contains(key[i]));
    }
    assert(line.take(key.len() as int) =~= key);
    assert(line.skip(key.len() as int + 1) =~= value);
    assert(line[0] == key[0]);
    if value.len() > 0 {
        assert(line.last() == value.last());
    } else {
        assert(line.last() == '=');
    }
    assert(text::trimmed(line) == line);
    assert(text::trimmed(key) == key);
    assert(text::trimmed(value) == value);
}

proof fn keys_are_keys()
    ensures
        metadata_laws::is_key("Split9X1"@),
        metadata_laws::is_key("Split9X2"@),
        metadata_laws::is_key("Split9X3"@),
        metadata_laws::is_key("Split9Y1"@),
        metadata_laws::is_key("Split9Y2"@),
        metadata_laws::is_key("Split9Y3"@),
        metadata_laws::is_key("Alpha"@),
        metadata_laws::is_key("bAlphaTexture"@),
        metadata_laws::is_key("Masked"@),
        metadata_laws::is_key("bMasked"@),
        metadata_laws::is_key("UClamp"@),
        metadata_laws::is_key("VClamp"@),
        metadata_laws::is_key("UClampMode"@),
        metadata_laws::is_key("VClampMode"@),
        metadata_laws::is_key("AnimNext"@),
        metadata_laws::is_key("MaxFrameRate"@),
        metadata_laws::is_key("MinFrameRate"@),
        metadata_laws::is_key("OneTimeAnimLoop"@),
        metadata_laws::is_key("PrimeCount"@),
        metadata_laws::is_key("TotalFrameNum"@),
{
    reveal_strlit("Split9X1");
    reveal_strlit("Split9X2");
    reveal_strlit("Split9X3");
    reveal_strlit("Split9Y1");
    reveal_strlit("Split9Y2");
    reveal_strlit("Split9Y3");
    reveal_strlit("Alpha");
    reveal_strlit("bAlphaTexture");
    reveal_strlit("Masked");
    reveal_strlit("bMasked");
    reveal_strlit("UClamp");
    reveal_strlit("VClamp");
    reveal_strlit("UClampMode");
    reveal_strlit("VClampMode");
    reveal_strlit("AnimNext");
    reveal_strlit("MaxFrameRate");
    reveal_strlit("MinFrameRate");
    reveal_strlit("OneTimeAnimLoop");
    reveal_strlit("PrimeCount");
    reveal_strlit("TotalFrameNum");
}

/// A line with a name in brackets opens the section of that name.
pub proof fn bracketed_names_open_sections(name: Seq<char>, n: NotesModel)
    requires
        name.len() > 0 ==> !text::is_white(name[0]) && !text::is_white(name.last()),
    ensures
        metadata::line_noted(n, seq!['['] + name + seq![']']) == (NotesModel { section: name, ..n }),
{
    let line = seq!['['] + name + seq![']'];
    assert(text::trimmed(line) == line);
    assert(line.subrange(1, line.len() - 1) =~= name);
    assert(text::trimmed(name) == name);
}

/// A line of the section `[Split9]` gives the number of its key, and nothing else.
#[verifier::spinoff_prover]
pub proof fn split9_lines_give_their_number(n: NotesModel, v: i32)
    requires
        text::same_folded(n.section, "Split9"@),
    ensures
        ({
            let number = text::decimal(v as int);
            &&& metadata::line_noted(n, "Split9X1"@ + "="@ + number) == (NotesModel {
                x1: Some(v),
                ..n
            })
            &&& metadata::line_noted(n, "Split9X2"@ + "="@ + number) == (NotesModel {
                x2: Some(v),
                ..n
            })
            &&& metadata::line_noted(n, "Split9X3"@ + "="@ + number) == (NotesModel {
                x3: Some(v),
                ..n
            })
            &&& metadata::line_noted(n, "Split9Y1"@ + "="@ + number) == (NotesModel {
                y1: Some(v),
                ..n
            })
            &&& metadata::line_noted(n, "Split9Y2"@ + "="@ + number) == (NotesModel {
                y2: Some(v),
                ..n
            })
            &&& metadata::line_noted(n, "Split9Y3"@ + "="@ + number) == (NotesModel {
                y3: Some(v),
                ..n
            })
        }),
{
    keys_differ();
    keys_are_keys();
    metadata_laws::decimals_are_read_back(v);
    let number = text::decimal(v as int);
    line_is_assigned("Split9X1"@, number, n);
    line_is_assigned("Split9X2"@, number, n);
    line_is_assigned("Split9X3"@, number, n);
    line_is_assigned("Split9Y1"@, number, n);
    line_is_assigned("Split9Y2"@, number, n);
    line_is_assigned("Split9Y3"@, number, n);
}

/// A line of the section `[Texture]` gives the value of its key, and nothing else.
#[verifier::spinoff_prover]
pub proof fn texture_lines_give_their_value(n: NotesModel, v: i32, flag: bool)
    requires
        text::same_folded(n.section, "Texture"@),
    ensures
        ({
            let number = text::decimal(v as int);
            let word = if flag {
                "True"@
            } else {
                "False"@
            };
            &&& metadata::line_noted(n, "Alpha"@ + "="@ + word) == (NotesModel {
                settings: TextureSettings { alpha: Some(flag), ..n.settings },
                ..n
            })
            &&& metadata::line_noted(n, "bAlphaTexture"@ + "="@ + word) == (NotesModel {
                settings: TextureSettings { alpha: Some(flag), ..n.settings },
                ..n
            })
            &&& metadata::line_noted(n, "Masked"@ + "="@ + word) == (NotesModel {
                settings: TextureSettings { masked: Some(flag), ..n.settings },
                ..n
            })
            &&& metadata::line_noted(n, "bMasked"@ + "="@ + word) == (NotesModel {
                settings: TextureSettings { masked: Some(flag), ..n.settings },
                ..n
            })
            &&& metadata::line_noted(n, "UClamp"@ + "="@ + number) == (NotesModel {
                settings: TextureSettings { u_clamp: Some(v), ..n.settings },
                ..n
            })
            &&& metadata::line_noted(n, "VClamp"@ + "="@ + number) == (NotesModel {
                settings: TextureSettings { v_clamp: Some(v), ..n.settings },
                ..n
            })
            &&& metadata::line_noted(n, "UClampMode"@ + "="@ + number) == (NotesModel {
                settings: TextureSettings { u_clamp_mode: Some(v), ..n.settings },
                ..n
            })
            &&& metadata::line_noted(n, "VClampMode"@ + "="@ + number) == (NotesModel {
                settings: TextureSettings { v_clamp_mode: Some(v), ..n.settings },
                ..n
            })
        }),
{
    keys_differ();
    keys_are_keys();
    words_are_flags();
    metadata_laws::decimals_are_read_back(v);
    let number = text::decimal(v as int);
    let word = if flag {
        "True"@
    } else {
        "False"@
    };
    reveal_strlit("True");
    reveal_strlit("False");
    assert(metadata_laws::is_bare(word));
    line_is_assigned("Alpha"@, word, n);
    line_is_assigned("bAlphaTexture"@, word, n);
    line_is_assigned("Masked"@, word, n);
    line_is_assigned("bMasked"@, word, n);
    line_is_assigned("UClamp"@, number, n);
    line_is_assigned("VClamp"@, number, n);
    line_is_assigned("UClampMode"@, number, n);
    line_is_assigned("VClampMode"@, number, n);
}

/// A line of the section `[Animations]` gives the value of its key, and nothing else.
#[verifier::spinoff_prover]
pub proof fn animation_lines_give_their_value(n: NotesModel, v: i32, flag: bool, words: Seq<char>)
    requires
        text::same_folded(n.section, "Animations"@),
        metadata_laws::is_bare(words),
    ensures
        ({
            let number = text::decimal(v as int);
            let word = if flag {
                "True"@
            } else {
                "False"@
            };
            &&& metadata::line_noted(n, "AnimNext"@ + "="@ + words) == (NotesModel {
                anim_next: Some(words),
                ..n
            })
            &&& metadata::line_noted(n, "MaxFrameRate"@ + "="@ + words) == (NotesModel {
                max_rate: Some(words),
                ..n
            })
            &&& metadata::line_noted(n, "MinFrameRate"@ + "="@ + words) == (NotesModel {
                min_rate: Some(words),
                ..n
            })
            &&& metadata::line_noted(n, "OneTimeAnimLoop"@ + "="@ + word) == (NotesModel {
                one_time_anim_loop: Some(flag),
                ..n
            })
            &&& metadata::line_noted(n, "PrimeCount"@ + "="@ + number) == (NotesModel {
                prime_count: Some(v),
                ..n
            })
            &&& metadata::line_noted(n, "TotalFrameNum"@ + "="@ + number) == (NotesModel {
                total_frame_num: Some(v),
                ..n
            })
        }),
{
    keys_differ();
    keys_are_keys();
    words_are_flags();
    metadata_laws::decimals_are_read_back(v);
    let number = text::decimal(v as int);
    let word = if flag {
        "True"@
    } else {
        "False"@
    };
    reveal_strlit("True");
    reveal_strlit("False");
    assert(metadata_laws::is_bare(word));
    line_is_assigned("AnimNext"@, words, n);
    line_is_assigned("MaxFrameRate"@, words, n);
    line_is_assigned("MinFrameRate"@, words, n);
    line_is_assigned("OneTimeAnimLoop"@, word, n);
    line_is_assigned("PrimeCount"@, number, n);
    line_is_assigned("TotalFrameNum"@, number, n);
}

/// The words that stand for a flag, in small letters or not.
#[verifier::spinoff_prover]
pub proof fn words_are_flags()
    ensures
        metadata::parsed_bool("True"@) == Some(true),
        metadata::parsed_bool("true"@) == Some(true),
        metadata::parsed_bool("1"@) == Some(true),
        metadata::parsed_bool("Yes"@) == Some(true),
        metadata::parsed_bool("yes"@) == Some(true),
        metadata::parsed_bool("Sim"@) == Some(true),
        metadata::parsed_bool("sim"@) == Some(true),
        metadata::parsed_bool("False"@) == Some(false),
        metadata::parsed_bool("false"@) == Some(false),
        metadata::parsed_bool("0"@) == Some(false),
        metadata::parsed_bool("No"@) == Some(false),
        metadata::parsed_bool("no"@) == Some(false),
        metadata::parsed_bool("Nao"@) == Some(false),
        metadata::parsed_bool("nao"@) == Some(false),
        metadata::parsed_bool("não"@) == Some(false),
        metadata::parsed_bool(""@) is None,
        metadata::parsed_bool("2"@) is None,
{
    reveal_strlit("True");
    reveal_strlit("true");
    reveal_strlit("1");
    reveal_strlit("Yes");
    reveal_strlit("yes");
    reveal_strlit("Sim");
    reveal_strlit("sim");
    reveal_strlit("False");
    reveal_strlit("false");
    reveal_strlit("0");
    reveal_strlit("No");
    reveal_strlit("no");
    reveal_strlit("Nao");
    reveal_strlit("nao");
    reveal_strlit("não");
    reveal_strlit("");
    reveal_strlit("2");
    assert(text::lower_text("True"@) =~= text::lower_text("true"@));
    assert(text::lower_text("Yes"@) =~= text::lower_text("yes"@));
    assert(text::lower_text("Sim"@) =~= text::lower_text("sim"@));
    assert(text::lower_text("False"@) =~= text::lower_text("false"@));
    assert(text::lower_text("No"@) =~= text::lower_text("no"@));
    assert(text::lower_text("Nao"@) =~= text::lower_text("nao"@));
    assert(text::lower_text("true"@)[0] == 't');
    assert(text::lower_text("1"@)[0] == '1');
    assert(text::lower_text("yes"@)[0] == 'y');
    assert(text::lower_text("sim"@)[0] == 's');
    assert(text::lower_text("false"@)[0] == 'f');
    assert(text::lower_text("0"@)[0] == '0');
    assert(text::lower_text("2"@)[0] == '2');
    assert(text::lower_text("no"@)[0] == 'n');
    assert(text::lower_text("nao"@)[0] == 'n');
    assert(text::lower_text("não"@)[0] == 'n');
    assert(text::lower_text(""@).len() == 0);
}

/// What is asked for is what the notes say: the nine parts where their first number is
/// known, and an animation where one of its values is.
pub proof fn notes_become_metadata(n: NotesModel, max_rate: Option<u32>, min_rate: Option<u32>)
    ensures
        ({
            let m = metadata::metadata_from(n, max_rate, min_rate);
            let or_zero = |v: Option<i32>|
                match v {
                    Some(k) => k,
                    None => 0i32,
                };
            &&& m.settings == n.settings
            &&& m.split9 is Some == n.x1 is Some
            &&& m.split9 matches Some(s) ==> {
                &&& Some(s.x1) == n.x1
                &&& s.x2 == properties::or_zero(n.x2)
                &&& s.x3 == properties::or_zero(n.x3)
                &&& s.y1 == properties::or_zero(n.y1)
                &&& s.y2 == properties::or_zero(n.y2)
                &&& s.y3 == properties::or_zero(n.y3)
            }
            &&& m.animation is None == (n.anim_next is None && max_rate is None && min_rate is None
                && n.one_time_anim_loop is None && n.prime_count is None && n.total_frame_num is None)
            &&& m.animation matches Some(a) ==> {
                &&& a.anim_next == n.anim_next
                &&& a.max_frame_rate == max_rate
                &&& a.min_frame_rate == min_rate
                &&& a.one_time_anim_loop == n.one_time_anim_loop
                &&& a.prime_count == n.prime_count
                &&& a.total_frame_num == n.total_frame_num
            }
        }),
{
}

/// The request for a texture asks for what was read with it: its picture, its settings,
/// its nine parts and its animation.
pub proof fn requests_ask_for_what_was_read(texture: ImportedModel)
    ensures
        imports::request_of(texture) matches Ok(request) ==> {
            let settings = texture.metadata.settings;
            &&& request.name == texture.name
            &&& request.image.width == texture.width
            &&& request.image.height == texture.height
            &&& request.image.pixels == texture.pixels
            &&& formats::format_of(request.image.format) == texture.format
            &&& request.alpha == settings.alpha
            &&& request.masked == settings.masked
            &&& request.clamp is None == (settings.u_clamp is None && settings.v_clamp is None
                && settings.u_clamp_mode is None && settings.v_clamp_mode is None)
            &&& request.clamp matches Some(c) ==> {
                &&& c.u_clamp == settings.u_clamp
                &&& c.v_clamp == settings.v_clamp
                &&& c.u_clamp_mode == settings.u_clamp_mode
                &&& c.v_clamp_mode == settings.v_clamp_mode
            }
            &&& request.split9 is Some == texture.metadata.split9 is Some
            &&& request.split9 matches Some(s) ==> {
                let found = texture.metadata.split9->0;
                &&& s.enabled
                &&& s.x1 == found.x1
                &&& s.x2 == found.x2
                &&& s.x3 == found.x3
                &&& s.y1 == found.y1
                &&& s.y2 == found.y2
                &&& s.y3 == found.y3
            }
            &&& request.animation == texture.metadata.animation
        },
{
}

/// What is asked of a texture that is replaced is what was read with the file, without the
/// values of properties that the texture does not store.
pub proof fn replaced_textures_keep_their_properties(new: MetadataModel, existing: EntryModel)
    ensures
        ({
            let m = imports::supported_metadata(new, existing);
            let stored = existing.settings;
            &&& m.settings.alpha == if stored.alpha is Some {
                new.settings.alpha
            } else {
                None
            }
            &&& m.settings.masked == if stored.masked is Some {
                new.settings.masked
            } else {
                None
            }
            &&& m.settings.u_clamp == if stored.u_clamp is Some {
                new.settings.u_clamp
            } else {
                None
            }
            &&& m.settings.v_clamp == if stored.v_clamp is Some {
                new.settings.v_clamp
            } else {
                None
            }
            &&& m.settings.u_clamp_mode == if stored.u_clamp_mode is Some {
                new.settings.u_clamp_mode
            } else {
                None
            }
            &&& m.settings.v_clamp_mode == if stored.v_clamp_mode is Some {
                new.settings.v_clamp_mode
            } else {
                None
            }
            &&& m.split9 == if existing.has_split9 {
                new.split9
            } else {
                None
            }
            &&& m.animation matches Some(a) ==> {
                let asked = new.animation->0;
                let found = existing.animation->0.properties;
                &&& new.animation is Some && existing.animation is Some
                &&& a.anim_next == if found.anim_next {
                    asked.anim_next
                } else {
                    None
                }
                &&& a.max_frame_rate == if found.max_frame_rate {
                    asked.max_frame_rate
                } else {
                    None
                }
                &&& a.min_frame_rate == if found.min_frame_rate {
                    asked.min_frame_rate
                } else {
                    None
                }
                &&& a.one_time_anim_loop == if found.one_time_anim_loop {
                    asked.one_time_anim_loop
                } else {
                    None
                }
                &&& a.prime_count == if found.prime_count {
                    asked.prime_count
                } else {
                    None
                }
                &&& a.total_frame_num == if found.total_frame_num {
                    asked.total_frame_num
                } else {
                    None
                }
            }
            &&& m.animation is None && new.animation is Some && existing.animation is Some ==> {
                let asked = new.animation->0;
                let found = existing.animation->0.properties;
                &&& !(found.anim_next && asked.anim_next is Some)
                &&& !(found.max_frame_rate && asked.max_frame_rate is Some)
                &&& !(found.min_frame_rate && asked.min_frame_rate is Some)
                &&& !(found.one_time_anim_loop && asked.one_time_anim_loop is Some)
                &&& !(found.prime_count && asked.prime_count is Some)
                &&& !(found.total_frame_num && asked.total_frame_num is Some)
            }
        }),
{
}

proof fn named_in_joined(a: Seq<Seq<char>>, b: Seq<Seq<char>>, x: Seq<char>)
    ensures
        (a + b).contains(x) == (a.contains(x) || b.contains(x)),
{
    if a.contains(x) {
        let i = choose|i: int| 0 <= i < a.len() && a[i] == x;
        assert((a + b)[i] == x);
    }
    if b.contains(x) {
        let i = choose|i: int| 0 <= i < b.len() && b[i] == x;
        assert((a + b)[a.len() + i] == x);
    }
    if (a + b).contains(x) {
        let i = choose|i: int| 0 <= i < (a + b).len() && (a + b)[i] == x;
        if i < a.len() {
            assert(a[i] == x);
        } else {
            assert(b[i - a.len()] == x);
        }
    }
}

proof fn named_alone(x: Seq<char>)
    ensures
        forall|y: Seq<char>| #[trigger] seq![y].contains(x) == (y == x),
        !Seq::<Seq<char>>::empty().contains(x),
{
    assert forall|y: Seq<char>| #[trigger] seq![y].contains(x) == (y == x) by {
        assert(seq![y][0] == y);
    }
}

#[verifier::spinoff_prover]
proof fn named_settings(new: TextureSettings, stored: TextureSettings, x: Seq<char>)
    ensures
        imports::dropped_settings(new, stored).contains(x) == ({
            ||| x == "Alpha"@ && new.alpha is Some && stored.alpha is None
            ||| x == "Masked"@ && new.masked is Some && stored.masked is None
            ||| x == "UClamp"@ && new.u_clamp is Some && stored.u_clamp is None
            ||| x == "VClamp"@ && new.v_clamp is Some && stored.v_clamp is None
            ||| x == "UClampMode"@ && new.u_clamp_mode is Some && stored.u_clamp_mode is None
            ||| x == "VClampMode"@ && new.v_clamp_mode is Some && stored.v_clamp_mode is None
        }),
{
    named_alone(x);
    let a = imports::dropped(new.alpha, stored.alpha is Some, "Alpha"@);
    let b = imports::dropped(new.masked, stored.masked is Some, "Masked"@);
    let c = imports::dropped(new.u_clamp, stored.u_clamp is Some, "UClamp"@);
    let d = imports::dropped(new.v_clamp, stored.v_clamp is Some, "VClamp"@);
    let e = imports::dropped(new.u_clamp_mode, stored.u_clamp_mode is Some, "UClampMode"@);
    let f = imports::dropped(new.v_clamp_mode, stored.v_clamp_mode is Some, "VClampMode"@);
    named_in_joined(a, b, x);
    named_in_joined(a + b, c, x);
    named_in_joined(a + b + c, d, x);
    named_in_joined(a + b + c + d, e, x);
    named_in_joined(a + b + c + d + e, f, x);
}

#[verifier::spinoff_prover]
proof fn named_animation(new: AnimationModel, stored: AnimationPropertyPresence, x: Seq<char>)
    ensures
        imports::dropped_animation(new, stored).contains(x) == ({
            ||| x == "AnimNext"@ && new.anim_next is Some && !stored.anim_next
            ||| x == "MaxFrameRate"@ && new.max_frame_rate is Some && !stored.max_frame_rate
            ||| x == "MinFrameRate"@ && new.min_frame_rate is Some && !stored.min_frame_rate
            ||| x == "OneTimeAnimLoop"@ && new.one_time_anim_loop is Some
                && !stored.one_time_anim_loop
            ||| x == "PrimeCount"@ && new.prime_count is Some && !stored.prime_count
            ||| x == "TotalFrameNum"@ && new.total_frame_num is Some && !stored.total_frame_num
        }),
{
    named_alone(x);
    let a = imports::dropped(new.anim_next, stored.anim_next, "AnimNext"@);
    let b = imports::dropped(new.max_frame_rate, stored.max_frame_rate, "MaxFrameRate"@);
    let c = imports::dropped(new.min_frame_rate, stored.min_frame_rate, "MinFrameRate"@);
    let d = imports::dropped(new.one_time_anim_loop, stored.one_time_anim_loop, "OneTimeAnimLoop"@);
    let e = imports::dropped(new.prime_count, stored.prime_count, "PrimeCount"@);
    let f = imports::dropped(new.total_frame_num, stored.total_frame_num, "TotalFrameNum"@);
    named_in_joined(a, b, x);
    named_in_joined(a + b, c, x);
    named_in_joined(a + b + c, d, x);
    named_in_joined(a + b + c + d, e, x);
    named_in_joined(a + b + c + d + e, f, x);
}

/// The names of what is dropped are those of the values that are given and not stored:
/// no other name is reported, and none is left out.
pub proof fn dropped_values_are_named(new: MetadataModel, existing: EntryModel, x: Seq<char>)
    ensures
        imports::dropped_metadata(new, existing).contains(x) == ({
            ||| x == "Alpha"@ && new.settings.alpha is Some && existing.settings.alpha is None
            ||| x == "Masked"@ && new.settings.masked is Some && existing.settings.masked is None
            ||| x == "UClamp"@ && new.settings.u_clamp is Some && existing.settings.u_clamp is None
            ||| x == "VClamp"@ && new.settings.v_clamp is Some && existing.settings.v_clamp is None
            ||| x == "UClampMode"@ && new.settings.u_clamp_mode is Some && existing.settings.u_clamp_mode is None
            ||| x == "VClampMode"@ && new.settings.v_clamp_mode is Some && existing.settings.v_clamp_mode is None
            ||| x == "Split9"@ && new.split9 is Some && !existing.has_split9
            ||| x == "Animations"@ && new.animation is Some && existing.animation is None
            ||| x == "AnimNext"@ && new.animation is Some && existing.animation is Some && new.animation->0.anim_next
                is Some && !existing.animation->0.properties.anim_next
            ||| x == "MaxFrameRate"@ && new.animation is Some && existing.animation is Some && new.animation->0.max_frame_rate
                is Some && !existing.animation->0.properties.max_frame_rate
            ||| x == "MinFrameRate"@ && new.animation is Some && existing.animation is Some && new.animation->0.min_frame_rate
                is Some && !existing.animation->0.properties.min_frame_rate
            ||| x == "OneTimeAnimLoop"@ && new.animation is Some && existing.animation is Some && new.animation->0.one_time_anim_loop
                is Some && !existing.animation->0.properties.one_time_anim_loop
            ||| x == "PrimeCount"@ && new.animation is Some && existing.animation is Some && new.animation->0.prime_count
                is Some && !existing.animation->0.properties.prime_count
            ||| x == "TotalFrameNum"@ && new.animation is Some && existing.animation is Some && new.animation->0.total_frame_num
                is Some && !existing.animation->0.properties.total_frame_num
        }),
{
    named_alone(x);
    let a = imports::dropped_settings(new.settings, existing.settings);
    let b = imports::dropped(new.split9, existing.has_split9, "Split9"@);
    let c = match new.animation {
        None => Seq::empty(),
        Some(animation) => match existing.animation {
            None => seq!["Animations"@],
            Some(found) => imports::dropped_animation(animation, found.properties),
        },
    };
    named_settings(new.settings, existing.settings, x);
    named_in_joined(a, b, x);
    named_in_joined(a + b, c, x);
    if let Some(animation) = new.animation {
        if let Some(found) = existing.animation {
            named_animation(animation, found.properties, x);
        }
    }
}

/// A texture gets a text file just if it has a setting, nine parts or an animation.
pub proof fn texts_are_written_where_there_is_something_to_say(
    entry: EntryModel,
    max_rate: Seq<char>,
    min_rate: Seq<char>,
)
    ensures
        metadata::metadata_of(entry, max_rate, min_rate) is None == ({
            &&& entry.settings.alpha is None && entry.settings.masked is None
            &&& entry.settings.u_clamp is None && entry.settings.v_clamp is None
            &&& entry.settings.u_clamp_mode is None && entry.settings.v_clamp_mode is None
            &&& !entry.has_split9
            &&& entry.animation is None
        }),
{
}

} // verus!
