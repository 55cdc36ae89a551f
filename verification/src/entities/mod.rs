use vstd::prelude::*;
use vstd::string::StrSliceExecFns;
use crate::components::animation_sheet::AnimationSheet;
use crate::components::sprite::Sprite;

verus! {

/// `p` is a prefix of `s`.
pub open spec fn has_prefix(s: Seq<char>, p: Seq<char>) -> bool {
    p.len() <= s.len() && s.take(p.len() as int) == p
}

/// `s` with every occurrence of `pat` removed, scanning left to right and
/// never letting two removed occurrences overlap.
pub open spec fn remove_all(s: Seq<char>, pat: Seq<char>) -> Seq<char>
    decreases s.len(),
{
    if s.len() == 0 {
        s
    } else if pat.len() > 0 && has_prefix(s, pat) {
        remove_all(s.skip(pat.len() as int), pat)
    } else {
        seq![s[0]] + remove_all(s.skip(1), pat)
    }
}

/// The pieces of `s` between its commas (one more piece than commas).
pub open spec fn split_commas(s: Seq<char>) -> Seq<Seq<char>>
    decreases s.len(),
{
    if s.len() == 0 {
        seq![Seq::<char>::empty()]
    } else {
        let r = split_commas(s.drop_last());
        if s.last() == ',' {
            r.push(Seq::<char>::empty())
        } else {
            r.update(r.len() - 1, r.last().push(s.last()))
        }
    }
}

/// The pieces joined back together with commas.
pub open spec fn join_commas(pieces: Seq<Seq<char>>) -> Seq<char>
    decreases pieces.len(),
{
    if pieces.len() <= 1 {
        if pieces.len() == 1 { pieces[0] } else { Seq::empty() }
    } else {
        join_commas(pieces.drop_last()) + seq![','] + pieces.last()
    }
}

/// The file name of a frame: the frame's name followed by ".png".
pub open spec fn frame_file(name: Seq<char>) -> Seq<char> {
    name + ".png"@
}

/// The frame files of an animation given as a comma-separated list of frame names.
pub open spec fn frame_files(frames: Seq<char>) -> Seq<Seq<char>> {
    split_commas(frames).map_values(|p: Seq<char>| frame_file(p))
}

/// The marker that object properties describing an animation begin with.
pub open spec fn animation_marker() -> Seq<char> {
    "animation_"@
}

/// The views of a list of strings.
pub open spec fn string_views(v: Seq<String>) -> Seq<Seq<char>> {
    v.map_values(|s: String| s@)
}

proof fn lemma_split_nonempty(s: Seq<char>)
    ensures
        split_commas(s).len() >= 1,
    decreases s.len(),
{
    if s.len() > 0 {
        lemma_split_nonempty(s.drop_last());
    }
}

fn matches_at(s: &str, i: usize, pat: &str) -> (r: bool)
    requires
        i <= s@.len(),
    ensures
        r == (i + pat@.len() <= s@.len() && s@.subrange(i as int, i + pat@.len()) == pat@),
{
    let n = s.unicode_len();
    let m = pat.unicode_len();
    if m > n - i {
        return false;
    }
    for j in 0..m
        invariant
            n == s@.len(),
            m == pat@.len(),
            i + m <= n,
            forall|t: int| 0 <= t < j ==> s@[i + t] == pat@[t],
    {
        if s.get_char(i + j) != pat.get_char(j) {
            assert(s@.subrange(i as int, i + m)[j as int] != pat@[j as int]);
            return false;
        }
    }
    assert(s@.subrange(i as int, i + m) =~= pat@);
    true
}

fn remove_pattern(s: &str, pat: &str) -> (r: String)
    requires
        pat@.len() > 0,
    ensures
        r@ == remove_all(s@, pat@),
{
    let n = s.unicode_len();
    let m = pat.unicode_len();
    let mut out = String::new();
    let mut i: usize = 0;
    proof {
        assert(s@.skip(0) =~= s@);
        assert(out@ + remove_all(s@, pat@) =~= remove_all(s@, pat@));
    }
    while i < n
        invariant
            n == s@.len(),
            m == pat@.len(),
            m > 0,
            i <= n,
            out@ + remove_all(s@.skip(i as int), pat@) == remove_all(s@, pat@),
        decreases n - i,
    {
        let ghost rest = s@.skip(i as int);
        if matches_at(s, i, pat) {
            proof {
                assert(rest.take(m as int) =~= s@.subrange(i as int, i + m));
                assert(rest.skip(m as int) =~= s@.skip(i + m));
            }
            i = i + m;
        } else {
            proof {
                if i + m <= n {
                    assert(rest.take(m as int) =~= s@.subrange(i as int, i + m));
                }
                assert(rest.skip(1) =~= s@.skip(i + 1));
                assert(rest[0] == s@[i as int]);
            }
            let c = s.substring_char(i, i + 1);
            proof {
                assert(c@ =~= seq![s@[i as int]]);
                assert(out@ + c@ + remove_all(s@.skip(i + 1), pat@) =~= out@ + (seq![rest[0]] + remove_all(rest.skip(1), pat@)));
            }
            out.append(c);
            i = i + 1;
        }
    }
    assert(s@.skip(n as int) =~= Seq::<char>::empty());
    assert(out@ + Seq::<char>::empty() =~= out@);
    out
}

/// Whether an object property called `key` describes an animation.
pub fn is_animation_key(key: &str) -> (r: bool)
    ensures
        r == has_prefix(key@, animation_marker()),
{
    let r = matches_at(key, 0, "animation_");
    assert(key@.subrange(0, animation_marker().len() as int) =~= key@.take(animation_marker().len() as int));
    r
}

/// The animation an object property called `key` describes: the key with
/// every "animation_" taken out.
pub fn animation_name(key: &str) -> (r: String)
    ensures
        r@ == remove_all(key@, animation_marker()),
{
    proof {
        reveal_strlit("animation_");
    }
    remove_pattern(key, "animation_")
}

/// The file of the frame called `name`.
pub fn frame_file_name(name: &str) -> (r: String)
    ensures
        r@ == frame_file(name@),
{
    String::from_str(name).concat(".png")
}

/// The frame files of an animation listed as comma-separated frame names.
pub fn animation_frames(frames: &str) -> (r: Vec<String>)
    ensures
        string_views(r@) == frame_files(frames@),
{
    let n = frames.unicode_len();
    let mut out: Vec<String> = Vec::new();
    let mut start: usize = 0;
    for i in 0..n
        invariant
            n == frames@.len(),
            start <= i,
            split_commas(frames@.take(i as int)).len() >= 1,
            string_views(out@) =~= split_commas(frames@.take(i as int)).drop_last().map_values(
                |p: Seq<char>| frame_file(p),
            ),
            split_commas(frames@.take(i as int)).last() =~= frames@.subrange(start as int, i as int),
    {
        let ghost before = split_commas(frames@.take(i as int));
        proof {
            assert(frames@.take(i + 1).drop_last() =~= frames@.take(i as int));
            assert(frames@.take(i + 1).last() == frames@[i as int]);
        }
        if frames.get_char(i) == ',' {
            let piece = frame_file_name(frames.substring_char(start, i));
            let ghost out_before = out@;
            out.push(piece);
            proof {
                let after = split_commas(frames@.take(i + 1));
                assert(piece@ == frame_file(before.last()));
                assert(string_views(out@) =~= string_views(out_before).push(piece@));
                assert(before.map_values(|p: Seq<char>| frame_file(p)) =~= before.drop_last().map_values(
                    |p: Seq<char>| frame_file(p),
                ).push(frame_file(before.last())));
                assert(after == before.push(Seq::<char>::empty()));
                assert(after.drop_last() =~= before);
                assert(before =~= before.drop_last().push(before.last()));
                assert(string_views(out@) =~= after.drop_last().map_values(|p: Seq<char>| frame_file(p)));
                assert(frames@.subrange(i + 1, i + 1) =~= Seq::<char>::empty());
            }
            start = i + 1;
        } else {
            proof {
                let after = split_commas(frames@.take(i + 1));
                assert(after.drop_last() =~= before.drop_last());
                assert(after.last() =~= frames@.subrange(start as int, i + 1));
            }
        }
    }
    let last = frame_file_name(frames.substring_char(start, n));
    let ghost out_before = out@;
    out.push(last);
    proof {
        assert(frames@.take(n as int) =~= frames@);
        let all = split_commas(frames@);
        assert(last@ == frame_file(all.last()));
        assert(string_views(out@) =~= string_views(out_before).push(last@));
        assert(all.map_values(|p: Seq<char>| frame_file(p)) =~= all.drop_last().map_values(
            |p: Seq<char>| frame_file(p),
        ).push(frame_file(all.last())));
        assert(all =~= all.drop_last().push(all.last()));
        assert(string_views(out@) =~= frame_files(frames@));
    }
    out
}

/// Splitting a list of frame names at its commas and joining the pieces
/// with commas gives the list back; no piece holds a comma.
pub proof fn lemma_split_join(s: Seq<char>)
    ensures
        join_commas(split_commas(s)) == s,
        forall|i: int, j: int|
            0 <= i < split_commas(s).len() && 0 <= j < split_commas(s)[i].len() ==> #[trigger] split_commas(s)[i][j] != ',',
    decreases s.len(),
{
    if s.len() > 0 {
        let d = s.drop_last();
        lemma_split_join(d);
        lemma_split_nonempty(d);
        let r = split_commas(d);
        if s.last() == ',' {
            let r2 = r.push(Seq::<char>::empty());
            assert(r2.drop_last() =~= r);
            assert(join_commas(r2) =~= s);
            assert forall|i: int, j: int| 0 <= i < r2.len() && 0 <= j < r2[i].len() implies #[trigger] r2[i][j] != ',' by {
                assert(r2[i] == r[i]);
            }
        } else {
            let l = r.last().push(s.last());
            let r2 = r.update(r.len() - 1, l);
            lemma_join_update_last(r, s.last());
            assert(d.push(s.last()) =~= s);
            assert forall|i: int, j: int| 0 <= i < r2.len() && 0 <= j < r2[i].len() implies #[trigger] r2[i][j] != ',' by {
                if i < r.len() - 1 {
                    assert(r2[i] == r[i]);
                } else if j < r.last().len() {
                    assert(r2[i][j] == r[r.len() - 1][j]);
                }
            }
        }
    }
}

proof fn lemma_join_update_last(r: Seq<Seq<char>>, c: char)
    requires
        r.len() >= 1,
    ensures
        join_commas(r.update(r.len() - 1, r.last().push(c))) == join_commas(r).push(c),
{
    let r2 = r.update(r.len() - 1, r.last().push(c));
    if r.len() == 1 {
    } else {
        assert(r2.drop_last() =~= r.drop_last());
        assert(join_commas(r2) =~= join_commas(r).push(c));
    }
}

/// The value of an object property: a string, or some other kind of value.
pub enum PropertyValue {
    StringValue(String),
    Other,
}

/// The components an object placed in a tile map starts with.
pub struct ObjectComponents {
    pub sprite: Option<Sprite>,
    pub animation: Option<AnimationSheet>,
}

/// The frame named by the last "frame" property, if that property is a string.
pub open spec fn frame_property(props: Seq<(String, PropertyValue)>) -> Option<Seq<char>>
    decreases props.len(),
{
    if props.len() == 0 {
        None
    } else if props.last().0@ == "frame"@ {
        match props.last().1 {
            PropertyValue::StringValue(s) => Some(s@),
            PropertyValue::Other => None,
        }
    } else {
        frame_property(props.drop_last())
    }
}

/// The key and the frame list of the last string property whose key marks
/// an animation.
pub open spec fn animation_property(props: Seq<(String, PropertyValue)>) -> Option<(Seq<char>, Seq<char>)>
    decreases props.len(),
{
    if props.len() == 0 {
        None
    } else {
        match props.last().1 {
            PropertyValue::StringValue(s) => if has_prefix(props.last().0@, animation_marker()) {
                Some((props.last().0@, s@))
            } else {
                animation_property(props.drop_last())
            },
            PropertyValue::Other => animation_property(props.drop_last()),
        }
    }
}

/// The animation sheet an animation property makes: one animation, named
/// after the key, showing the listed frames, current and stopped at frame 0.
pub open spec fn sheet_from_property(sheet: AnimationSheet, key: Seq<char>, frames: Seq<char>) -> bool {
    let name = remove_all(key, animation_marker());
    &&& sheet.animations@.dom() == set![name]
    &&& string_views(sheet.animations@[name]@) == frame_files(frames)
    &&& sheet.current_animation@ == name
    &&& sheet.current_index == 0
    &&& !sheet.playing
    &&& sheet.wf()
}

/// The components of a map object with the properties `properties` (in the
/// order they are read): a sprite when the "frame" property names a frame,
/// and an animation sheet from the last property whose key begins with
/// "animation_" and whose value lists frames.
pub fn object_components(properties: &Vec<(String, PropertyValue)>) -> (c: ObjectComponents)
    ensures
        match frame_property(properties@) {
            Some(name) => c.sprite matches Some(s) && s.frame_name@ == name,
            None => c.sprite is None,
        },
        match animation_property(properties@) {
            Some((key, frames)) => c.animation matches Some(sheet) && sheet_from_property(sheet, key, frames),
            None => c.animation is None,
        },
{
    let frame_key = String::from_str("frame");
    let mut sprite: Option<Sprite> = None;
    let mut animation: Option<AnimationSheet> = None;
    let n = properties.len();
    for i in 0..n
        invariant
            n == properties@.len(),
            frame_key@ == "frame"@,
            match frame_property(properties@.take(i as int)) {
                Some(name) => sprite matches Some(s) && s.frame_name@ == name,
                None => sprite is None,
            },
            match animation_property(properties@.take(i as int)) {
                Some((key, frames)) => animation matches Some(sheet) && sheet_from_property(sheet, key, frames),
                None => animation is None,
            },
    {
        proof {
            assert(properties@.take(i + 1).drop_last() =~= properties@.take(i as int));
            assert(properties@.take(i + 1).last() == properties@[i as int]);
        }
        let key = &properties[i].0;
        if *key == frame_key {
            sprite = match &properties[i].1 {
                PropertyValue::StringValue(s) => Some(Sprite::new(s.as_str())),
                PropertyValue::Other => None,
            };
        }
        if is_animation_key(key.as_str()) {
            match &properties[i].1 {
                PropertyValue::StringValue(frames) => {
                    let mut sheet = AnimationSheet::new();
                    let name = animation_name(key.as_str());
                    let files = animation_frames(frames.as_str());
                    let ghost name_view = name@;
                    sheet.add_animation(name, files);
                    proof {
                        assert(sheet.animations@.dom() =~= set![name_view]);
                    }
                    animation = Some(sheet);
                },
                PropertyValue::Other => {},
            }
        }
    }
    proof {
        assert(properties@.take(n as int) =~= properties@);
    }
    ObjectComponents { sprite, animation }
}

} // verus!
