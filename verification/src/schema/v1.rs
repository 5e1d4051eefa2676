//! Schema v1 model

use vstd::prelude::*;

use crate::json::{spec_get, JsonValue};
use crate::schema::SchemaError;

verus! {

/// The bounding box of the content to be rendered within a raster.
#[derive(Debug, Clone)]
pub struct ContentBox {
    /// The total width of the content box.
    pub width: u32,
    /// The total height of the content box.
    pub height: u32,
    /// The X position of the content box within the raster.
    pub raster_x: u32,
    /// The Y position of the content box within the raster.
    pub raster_y: u32,
}

/// The size of the master raster image.
#[derive(Debug, Clone)]
pub struct RasterSize {
    /// The total width of the raster.
    pub width: u32,
    /// The total height of the raster.
    pub height: u32,
}

/// The paths for the static assets.
#[derive(Debug, Clone)]
pub struct StaticBase {
    /// The path to the opaque base image.
    pub opaque: String,
    /// The path to the translucent base image.
    pub translucent: String,
    /// The path to the mask image for clipping background images.
    pub mask: String,
}

/// The XY position of an element.
#[derive(Debug, Clone, Copy, PartialEq, Eq, Structural)]
pub struct Position {
    /// The X position of an element.
    pub x: u32,
    /// The Y position of an element.
    pub y: u32,
}

impl Position {
    /// Convert to an (x, y) tuple.
    pub fn as_tuple(&self) -> (r: (u32, u32))
        ensures
            r.0 == self.x,
            r.1 == self.y,
    {
        (self.x, self.y)
    }
}

/// Whether an attribute is fixed or dynamic.
#[derive(Debug, Clone, Copy, PartialEq, Eq, Structural)]
pub enum Mode {
    /// Fixed means that a value is predefined at export time.
    Fixed,
    /// Dynamic means that a value must be specified at render time.
    Dynamic,
}

/// The type of fragment.
#[derive(Debug, Clone, Copy, PartialEq, Eq, Structural)]
pub enum FragmentType {
    Text,
    Image,
    Shape,
}

/// Common methods for fragments.
pub trait Fragment {
    /// The path of the fragment template file, as the model holds it.
    spec fn spec_src(&self) -> Seq<char>;

    /// The position of the fragment, as the model holds it.
    spec fn spec_position(&self) -> Position;

    /// The declared placeholder list, as the model holds it.
    spec fn spec_placeholders(&self) -> Seq<String>;

    /// The kind of this fragment.
    spec fn spec_fragment_type() -> FragmentType;

    /// The path for the fragment SVG file.
    fn src(&self) -> (r: &String)
        ensures
            r@ == self.spec_src(),
    ;

    /// The position within the content box to render the fragment.
    fn position(&self) -> (r: &Position)
        ensures
            *r == self.spec_position(),
    ;

    /// The placeholders within the fragment that are expected to be replaced.
    fn placeholders(&self) -> (r: &Vec<String>)
        ensures
            r@ == self.spec_placeholders(),
    ;

    /// The type of fragment.
    fn fragment_type(&self) -> (r: FragmentType)
        ensures
            r == Self::spec_fragment_type(),
    ;
}

/// The associated data for an image fragment.
#[derive(Debug, Clone)]
pub struct ImageFragment {
    /// The path for the fragment SVG file.
    pub src: String,
    /// The position within the content box to render the fragment.
    pub position: Position,
    /// The placeholders within the fragment that are expected to be replaced.
    pub placeholders: Vec<String>,
}

impl Fragment for ImageFragment {
    open spec fn spec_src(&self) -> Seq<char> {
        self.src@
    }

    open spec fn spec_position(&self) -> Position {
        self.position
    }

    open spec fn spec_placeholders(&self) -> Seq<String> {
        self.placeholders@
    }

    open spec fn spec_fragment_type() -> FragmentType {
        FragmentType::Image
    }

    fn src(&self) -> &String {
        &self.src
    }

    fn position(&self) -> &Position {
        &self.position
    }

    fn placeholders(&self) -> &Vec<String> {
        &self.placeholders
    }

    fn fragment_type(&self) -> FragmentType {
        FragmentType::Image
    }
}

/// The associated data for a text fragment.
#[derive(Debug, Clone)]
pub struct TextFragment {
    /// The path for the fragment SVG file.
    pub src: String,
    /// The position within the content box to render the fragment.
    pub position: Position,
    /// The placeholders within the fragment that are expected to be replaced.
    pub placeholders: Vec<String>,
}

impl Fragment for TextFragment {
    open spec fn spec_src(&self) -> Seq<char> {
        self.src@
    }

    open spec fn spec_position(&self) -> Position {
        self.position
    }

    open spec fn spec_placeholders(&self) -> Seq<String> {
        self.placeholders@
    }

    open spec fn spec_fragment_type() -> FragmentType {
        FragmentType::Text
    }

    fn src(&self) -> &String {
        &self.src
    }

    fn position(&self) -> &Position {
        &self.position
    }

    fn placeholders(&self) -> &Vec<String> {
        &self.placeholders
    }

    fn fragment_type(&self) -> FragmentType {
        FragmentType::Text
    }
}

/// The associated data for a shape fragment.
#[derive(Debug, Clone)]
pub struct ShapeFragment {
    /// The path for the fragment SVG file.
    pub src: String,
    /// The position within the content box to render the fragment.
    pub position: Position,
    /// The placeholders within the fragment that are expected to be replaced.
    pub placeholders: Vec<String>,
    /// Whether the width of the shape is fixed or dynamic.
    pub width_mode: Mode,
    /// Whether the height of the shape is fixed or dynamic.
    pub height_mode: Mode,
    /// Whether the color of the shape is fixed or dynamic.
    pub color_mode: Mode,
}

impl Fragment for ShapeFragment {
    open spec fn spec_src(&self) -> Seq<char> {
        self.src@
    }

    open spec fn spec_position(&self) -> Position {
        self.position
    }

    open spec fn spec_placeholders(&self) -> Seq<String> {
        self.placeholders@
    }

    open spec fn spec_fragment_type() -> FragmentType {
        FragmentType::Shape
    }

    fn src(&self) -> &String {
        &self.src
    }

    fn position(&self) -> &Position {
        &self.position
    }

    fn placeholders(&self) -> &Vec<String> {
        &self.placeholders
    }

    fn fragment_type(&self) -> FragmentType {
        FragmentType::Shape
    }
}

impl TextFragment {
    /// An exact copy of this fragment.
    pub fn duplicate(&self) -> (r: Self)
        ensures
            r.src@ == self.src@,
            r.position == self.position,
            r.placeholders@ == self.placeholders@,
    {
        TextFragment {
            src: self.src.clone(),
            position: self.position,
            placeholders: crate::strutil::clone_string_vec(&self.placeholders),
        }
    }
}

impl ImageFragment {
    /// An exact copy of this fragment.
    pub fn duplicate(&self) -> (r: Self)
        ensures
            r.src@ == self.src@,
            r.position == self.position,
            r.placeholders@ == self.placeholders@,
    {
        ImageFragment {
            src: self.src.clone(),
            position: self.position,
            placeholders: crate::strutil::clone_string_vec(&self.placeholders),
        }
    }
}

impl ShapeFragment {
    /// An exact copy of this fragment.
    pub fn duplicate(&self) -> (r: Self)
        ensures
            r.src@ == self.src@,
            r.position == self.position,
            r.placeholders@ == self.placeholders@,
    {
        ShapeFragment {
            src: self.src.clone(),
            position: self.position,
            placeholders: crate::strutil::clone_string_vec(&self.placeholders),
            width_mode: self.width_mode,
            height_mode: self.height_mode,
            color_mode: self.color_mode,
        }
    }
}

/// The path split into segments at every `/`, gathered left to right onto
/// the segment `cur` begun so far. Duplicate separators yield empty
/// segments.
pub open spec fn spec_split_acc(s: Seq<char>, cur: Seq<char>) -> Seq<Seq<char>>
    decreases s.len(),
{
    if s.len() == 0 {
        seq![cur]
    } else if s[0] == '/' {
        seq![cur] + spec_split_acc(s.drop_first(), Seq::empty())
    } else {
        spec_split_acc(s.drop_first(), cur.push(s[0]))
    }
}

/// Lexical collapse of path segments onto the stack `acc`: a `..` segment
/// pops the last pushed segment (and is dropped when nothing is left to
/// pop), `.` and empty segments are dropped, anything else is pushed.
pub open spec fn spec_collapse(acc: Seq<Seq<char>>, segs: Seq<Seq<char>>) -> Seq<Seq<char>>
    decreases segs.len(),
{
    if segs.len() == 0 {
        acc
    } else {
        let s0 = segs[0];
        let acc2 = if s0 == seq!['.', '.'] {
            if acc.len() > 0 {
                acc.drop_last()
            } else {
                acc
            }
        } else if s0 == seq!['.'] || s0.len() == 0 {
            acc
        } else {
            acc.push(s0)
        };
        spec_collapse(acc2, segs.drop_first())
    }
}

/// Segments joined by single separators, with no leading or trailing one.
pub open spec fn spec_join_slash(segs: Seq<Seq<char>>) -> Seq<char>
    decreases segs.len(),
{
    if segs.len() == 0 {
        Seq::empty()
    } else if segs.len() == 1 {
        segs[0]
    } else {
        spec_join_slash(segs.drop_last()) + seq!['/'] + segs.last()
    }
}

/// The lexical resolution of a path: its segments collapsed, joined back
/// together, keeping a leading separator if the path was absolute. The
/// filesystem is never consulted.
pub open spec fn spec_resolve_path(full: Seq<char>) -> Seq<char> {
    let collapsed = spec_collapse(Seq::empty(), spec_split_acc(full, Seq::empty()));
    if full.len() > 0 && full[0] == '/' {
        seq!['/'] + spec_join_slash(collapsed)
    } else {
        spec_join_slash(collapsed)
    }
}

/// The views of a vector of character-vector segments.
pub open spec fn segs_view(v: Seq<Vec<char>>) -> Seq<Seq<char>> {
    v.map_values(|x: Vec<char>| x@)
}

fn copy_chars(v: &Vec<char>) -> (r: Vec<char>)
    ensures
        r@ == v@,
{
    let mut r: Vec<char> = Vec::new();
    let mut i: usize = 0;
    while i < v.len()
        invariant
            i <= v@.len(),
            r@ == v@.take(i as int),
        decreases v@.len() - i,
    {
        r.push(v[i]);
        proof {
            assert(r@ =~= v@.take(i + 1));
        }
        i = i + 1;
    }
    proof {
        assert(v@.take(v@.len() as int) =~= v@);
    }
    r
}

fn split_slash(cs: &Vec<char>) -> (r: Vec<Vec<char>>)
    ensures
        segs_view(r@) == spec_split_acc(cs@, Seq::empty()),
{
    let n = cs.len();
    let mut segs: Vec<Vec<char>> = Vec::new();
    let mut cur: Vec<char> = Vec::new();
    let mut i: usize = 0;
    proof {
        assert(cs@.skip(0) =~= cs@);
    }
    while i < n
        invariant
            i <= n,
            n == cs@.len(),
            spec_split_acc(cs@, Seq::empty()) == segs_view(segs@) + spec_split_acc(
                cs@.skip(i as int),
                cur@,
            ),
        decreases n - i,
    {
        let ghost rest = cs@.skip(i as int);
        let c = cs[i];
        if c == '/' {
            segs.push(cur);
            cur = Vec::new();
            proof {
                assert(segs_view(segs@) =~= segs_view(segs@.drop_last()) + seq![
                    segs@.last()@,
                ]);
            }
        } else {
            cur.push(c);
        }
        proof {
            assert(rest.drop_first() =~= cs@.skip(i + 1));
        }
        i = i + 1;
    }
    segs.push(cur);
    proof {
        assert(cs@.skip(n as int) =~= Seq::<char>::empty());
        assert(segs_view(segs@) =~= segs_view(segs@.drop_last()) + seq![segs@.last()@]);
    }
    segs
}

fn collapse_segments(segs: &Vec<Vec<char>>) -> (r: Vec<Vec<char>>)
    ensures
        segs_view(r@) == spec_collapse(Seq::empty(), segs_view(segs@)),
{
    let n = segs.len();
    let mut acc: Vec<Vec<char>> = Vec::new();
    let mut i: usize = 0;
    proof {
        assert(segs_view(segs@).skip(0) =~= segs_view(segs@));
        assert(segs_view(acc@) =~= Seq::<Seq<char>>::empty());
    }
    while i < n
        invariant
            i <= n,
            n == segs@.len(),
            spec_collapse(Seq::empty(), segs_view(segs@)) == spec_collapse(
                segs_view(acc@),
                segs_view(segs@).skip(i as int),
            ),
        decreases n - i,
    {
        let ghost rest = segs_view(segs@).skip(i as int);
        let ghost acc0 = segs_view(acc@);
        let seg = &segs[i];
        if seg.len() == 2 && seg[0] == '.' && seg[1] == '.' {
            proof {
                assert(seg@ =~= seq!['.', '.']);
            }
            if acc.len() > 0 {
                let popped = acc.pop();
                proof {
                    assert(segs_view(acc@) =~= acc0.drop_last());
                }
            }
        } else if seg.len() == 0 || (seg.len() == 1 && seg[0] == '.') {
            proof {
                if seg@.len() == 1 {
                    assert(seg@ =~= seq!['.']);
                }
                assert(seg@ != seq!['.', '.']);
            }
        } else {
            proof {
                assert(seg@ != seq!['.', '.']);
                assert(seg@ != seq!['.']);
            }
            acc.push(copy_chars(seg));
            proof {
                assert(segs_view(acc@) =~= acc0.push(seg@));
            }
        }
        proof {
            assert(rest[0] == seg@);
            assert(rest.drop_first() =~= segs_view(segs@).skip(i + 1));
        }
        i = i + 1;
    }
    proof {
        assert(segs_view(segs@).skip(n as int) =~= Seq::<Seq<char>>::empty());
    }
    acc
}

fn join_slash(segs: &Vec<Vec<char>>) -> (r: Vec<char>)
    ensures
        r@ == spec_join_slash(segs_view(segs@)),
{
    let ghost ps = segs_view(segs@);
    let mut r: Vec<char> = Vec::new();
    let mut i: usize = 0;
    while i < segs.len()
        invariant
            i <= segs@.len(),
            ps == segs_view(segs@),
            r@ == spec_join_slash(ps.take(i as int)),
        decreases segs@.len() - i,
    {
        let ghost r0 = r@;
        if i > 0 {
            r.push('/');
        }
        let seg = &segs[i];
        let mut j: usize = 0;
        let ghost r1 = r@;
        while j < seg.len()
            invariant
                j <= seg@.len(),
                r@ == r1 + seg@.take(j as int),
            decreases seg@.len() - j,
        {
            r.push(seg[j]);
            proof {
                assert(r@ =~= r1 + seg@.take(j + 1));
            }
            j = j + 1;
        }
        proof {
            assert(seg@.take(seg@.len() as int) =~= seg@);
            assert(ps.take(i + 1).drop_last() =~= ps.take(i as int));
            assert(ps.take(i + 1).last() == ps[i as int]);
            if i == 0 {
                assert(r@ =~= spec_join_slash(ps.take(1)));
            } else {
                assert(r@ =~= spec_join_slash(ps.take(i as int)) + seq!['/'] + ps[i as int]);
            }
        }
        i = i + 1;
    }
    proof {
        assert(ps.take(segs@.len() as int) =~= ps);
    }
    r
}

impl Schema {
    /// Get the absolute path for an asset specified by the schema: the
    /// schema file's own directory joined with the reference, collapsed
    /// lexically. The filesystem is not consulted, and a reference cannot
    /// pop more segments than the path before it holds.
    pub fn absolute_asset_path(&self, specified_fp: &str) -> (r: String)
        ensures
            r@ == spec_resolve_path(self.schema_file@ + "/../"@ + specified_fp@),
    {
        let mut full = String::new();
        full.append(self.schema_file.as_str());
        full.append("/../");
        full.append(specified_fp);
        let cs = crate::strutil::str_to_chars(full.as_str());
        let segs = split_slash(&cs);
        let collapsed = collapse_segments(&segs);
        let joined = join_slash(&collapsed);
        let mut out: Vec<char> = Vec::new();
        if cs.len() > 0 && cs[0] == '/' {
            out.push('/');
        }
        let ghost out0 = out@;
        let mut k: usize = 0;
        while k < joined.len()
            invariant
                k <= joined@.len(),
                out@ == out0 + joined@.take(k as int),
            decreases joined@.len() - k,
        {
            out.push(joined[k]);
            proof {
                assert(out@ =~= out0 + joined@.take(k + 1));
            }
            k = k + 1;
        }
        proof {
            assert(joined@.take(joined@.len() as int) =~= joined@);
            assert(out@ =~= out0 + joined@);
        }
        crate::strutil::chars_to_string(&out)
    }
}

/// All of the fragments for the render.
#[derive(Debug, Clone)]
pub struct DynamicFragments {
    /// All of the image fragments for the render.
    pub images: Vec<ImageFragment>,
    /// All of the text fragments for the render.
    pub text: Vec<TextFragment>,
    /// All of the shape fragments for the render.
    pub shapes: Vec<ShapeFragment>,
}

/// v1: The schema that determines the layout of the render and all of its
/// elements.
#[derive(Debug, Clone)]
pub struct Schema {
    /// The path to the schema file.
    pub schema_file: String,
    /// The version of the schema.
    pub schema_version: u64,
    /// The ID of the schema.
    pub id: String,
    /// The name of the schema.
    pub name: String,
    /// The content box of the schema. This is what fragments are positioned
    /// relative to.
    pub content_box: ContentBox,
    /// The actual size of the raster.
    pub raster_size: RasterSize,
    /// The paths to the static base images.
    pub static_base: StaticBase,
    /// All of the fragments for the render.
    pub fragments: DynamicFragments,
}


/// The document's field under `key` is a number denoting an unsigned
/// integer that fits the field's width.
pub open spec fn u32_field_ok(v: JsonValue, key: Seq<char>) -> bool {
    match spec_get(v, key) {
        Some(JsonValue::Num(n)) => n matches Some(x) && x <= u32::MAX,
        _ => false,
    }
}

/// The number the document's field under `key` denotes.
pub open spec fn spec_num_field(v: JsonValue, key: Seq<char>) -> u64 {
    match spec_get(v, key) {
        Some(JsonValue::Num(n)) => match n {
            Some(x) => x,
            None => 0,
        },
        _ => 0,
    }
}

/// The document's field under `key` is a number denoting an unsigned
/// integer.
pub open spec fn u64_field_ok(v: JsonValue, key: Seq<char>) -> bool {
    match spec_get(v, key) {
        Some(JsonValue::Num(n)) => n is Some,
        _ => false,
    }
}

/// The document's field under `key` is a string.
pub open spec fn str_field_ok(v: JsonValue, key: Seq<char>) -> bool {
    match spec_get(v, key) {
        Some(JsonValue::Str(s)) => true,
        _ => false,
    }
}

/// The text of the document's string field under `key`.
pub open spec fn spec_str_field(v: JsonValue, key: Seq<char>) -> Seq<char> {
    match spec_get(v, key) {
        Some(JsonValue::Str(s)) => s@,
        _ => Seq::empty(),
    }
}

/// The document is a well-formed position object.
pub open spec fn position_ok(v: JsonValue) -> bool {
    u32_field_ok(v, "x"@) && u32_field_ok(v, "y"@)
}

/// `p` holds the position the document describes.
pub open spec fn position_matches(p: Position, v: JsonValue) -> bool {
    p.x == spec_num_field(v, "x"@) && p.y == spec_num_field(v, "y"@)
}

/// The document is a well-formed content box object.
pub open spec fn content_box_ok(v: JsonValue) -> bool {
    &&& u32_field_ok(v, "width"@)
    &&& u32_field_ok(v, "height"@)
    &&& u32_field_ok(v, "rasterX"@)
    &&& u32_field_ok(v, "rasterY"@)
}

/// `c` holds the content box the document describes.
pub open spec fn content_box_matches(c: ContentBox, v: JsonValue) -> bool {
    &&& c.width == spec_num_field(v, "width"@)
    &&& c.height == spec_num_field(v, "height"@)
    &&& c.raster_x == spec_num_field(v, "rasterX"@)
    &&& c.raster_y == spec_num_field(v, "rasterY"@)
}

/// The document is a well-formed raster size object.
pub open spec fn raster_size_ok(v: JsonValue) -> bool {
    u32_field_ok(v, "width"@) && u32_field_ok(v, "height"@)
}

/// `r` holds the raster size the document describes.
pub open spec fn raster_size_matches(r: RasterSize, v: JsonValue) -> bool {
    r.width == spec_num_field(v, "width"@) && r.height == spec_num_field(v, "height"@)
}

/// The document is a well-formed static base object.
pub open spec fn static_base_ok(v: JsonValue) -> bool {
    str_field_ok(v, "opaque"@) && str_field_ok(v, "translucent"@) && str_field_ok(v, "mask"@)
}

/// `b` holds the static base paths the document describes.
pub open spec fn static_base_matches(b: StaticBase, v: JsonValue) -> bool {
    &&& b.opaque@ == spec_str_field(v, "opaque"@)
    &&& b.translucent@ == spec_str_field(v, "translucent"@)
    &&& b.mask@ == spec_str_field(v, "mask"@)
}

/// The document is an array of strings.
pub open spec fn string_list_ok(v: JsonValue) -> bool {
    match v {
        JsonValue::Arr(a) => forall|i: int| 0 <= i < a@.len() ==> (#[trigger] a@[i]) is Str,
        _ => false,
    }
}

/// `l` holds the strings of the document's array, in order.
pub open spec fn string_list_matches(l: Seq<String>, v: JsonValue) -> bool {
    match v {
        JsonValue::Arr(a) => l.len() == a@.len() && forall|i: int|
            0 <= i < a@.len() ==> match #[trigger] a@[i] {
                JsonValue::Str(s) => l[i]@ == s@,
                _ => false,
            },
        _ => false,
    }
}

/// The document is a mode string: `"fixed"` or `"dynamic"`.
pub open spec fn mode_ok(v: JsonValue) -> bool {
    match v {
        JsonValue::Str(s) => s@ == "fixed"@ || s@ == "dynamic"@,
        _ => false,
    }
}

/// `m` is the mode the document names.
pub open spec fn mode_matches(m: Mode, v: JsonValue) -> bool {
    match v {
        JsonValue::Str(s) => (m is Fixed && s@ == "fixed"@) || (m is Dynamic && s@
            == "dynamic"@),
        _ => false,
    }
}

/// The document holds the three fields every fragment kind shares, each
/// well formed.
pub open spec fn fragment_fields_ok(v: JsonValue) -> bool {
    &&& str_field_ok(v, "src"@)
    &&& match spec_get(v, "position"@) {
        Some(p) => position_ok(p),
        None => false,
    }
    &&& match spec_get(v, "placeholders"@) {
        Some(l) => string_list_ok(l),
        None => false,
    }
}

/// The shared fragment fields of the document, as a fragment value holds
/// them.
pub open spec fn fragment_fields_match(
    src: Seq<char>,
    position: Position,
    placeholders: Seq<String>,
    v: JsonValue,
) -> bool {
    &&& src == spec_str_field(v, "src"@)
    &&& match spec_get(v, "position"@) {
        Some(p) => position_matches(position, p),
        None => false,
    }
    &&& match spec_get(v, "placeholders"@) {
        Some(l) => string_list_matches(placeholders, l),
        None => false,
    }
}

/// The document is a well-formed shape fragment: the shared fields plus
/// the three mode flags.
pub open spec fn shape_fragment_ok(v: JsonValue) -> bool {
    &&& fragment_fields_ok(v)
    &&& match spec_get(v, "widthMode"@) {
        Some(m) => mode_ok(m),
        None => false,
    }
    &&& match spec_get(v, "heightMode"@) {
        Some(m) => mode_ok(m),
        None => false,
    }
    &&& match spec_get(v, "colorMode"@) {
        Some(m) => mode_ok(m),
        None => false,
    }
}

/// `f` holds the shape fragment the document describes.
pub open spec fn shape_fragment_matches(f: ShapeFragment, v: JsonValue) -> bool {
    &&& fragment_fields_match(f.src@, f.position, f.placeholders@, v)
    &&& match spec_get(v, "widthMode"@) {
        Some(m) => mode_matches(f.width_mode, m),
        None => false,
    }
    &&& match spec_get(v, "heightMode"@) {
        Some(m) => mode_matches(f.height_mode, m),
        None => false,
    }
    &&& match spec_get(v, "colorMode"@) {
        Some(m) => mode_matches(f.color_mode, m),
        None => false,
    }
}

/// The document is an array of well-formed shared-field fragments.
pub open spec fn fragment_list_ok(v: JsonValue) -> bool {
    match v {
        JsonValue::Arr(a) => forall|i: int|
            0 <= i < a@.len() ==> fragment_fields_ok(#[trigger] a@[i]),
        _ => false,
    }
}

/// The document is an array of well-formed shape fragments.
pub open spec fn shape_fragment_list_ok(v: JsonValue) -> bool {
    match v {
        JsonValue::Arr(a) => forall|i: int|
            0 <= i < a@.len() ==> shape_fragment_ok(#[trigger] a@[i]),
        _ => false,
    }
}

/// The whole document carries every field the version-1 schema requires,
/// each of the right shape.
pub open spec fn schema_doc_ok(doc: JsonValue) -> bool {
    &&& u64_field_ok(doc, "schemaVersion"@)
    &&& str_field_ok(doc, "id"@)
    &&& str_field_ok(doc, "name"@)
    &&& match spec_get(doc, "contentBox"@) {
        Some(cb) => content_box_ok(cb),
        None => false,
    }
    &&& match spec_get(doc, "rasterSize"@) {
        Some(rs) => raster_size_ok(rs),
        None => false,
    }
    &&& match spec_get(doc, "staticBase"@) {
        Some(sb) => static_base_ok(sb),
        None => false,
    }
    &&& match spec_get(doc, "fragments"@) {
        Some(fr) => {
            &&& match spec_get(fr, "text"@) {
                Some(t) => fragment_list_ok(t),
                None => false,
            }
            &&& match spec_get(fr, "images"@) {
                Some(im) => fragment_list_ok(im),
                None => false,
            }
            &&& match spec_get(fr, "shapes"@) {
                Some(sh) => shape_fragment_list_ok(sh),
                None => false,
            }
        },
        None => false,
    }
}

/// `s` holds exactly what the document describes, with `fp` recorded as
/// the schema file path.
pub open spec fn schema_matches_doc(s: Schema, doc: JsonValue, fp: Seq<char>) -> bool {
    &&& s.schema_file@ == fp
    &&& s.schema_version == spec_num_field(doc, "schemaVersion"@)
    &&& s.id@ == spec_str_field(doc, "id"@)
    &&& s.name@ == spec_str_field(doc, "name"@)
    &&& match spec_get(doc, "contentBox"@) {
        Some(cb) => content_box_matches(s.content_box, cb),
        None => false,
    }
    &&& match spec_get(doc, "rasterSize"@) {
        Some(rs) => raster_size_matches(s.raster_size, rs),
        None => false,
    }
    &&& match spec_get(doc, "staticBase"@) {
        Some(sb) => static_base_matches(s.static_base, sb),
        None => false,
    }
    &&& match spec_get(doc, "fragments"@) {
        Some(fr) => {
            &&& match spec_get(fr, "text"@) {
                Some(JsonValue::Arr(a)) => s.fragments.text@.len() == a@.len() && forall|i: int|
                    0 <= i < a@.len() ==> fragment_fields_match(
                        (#[trigger] s.fragments.text@[i]).src@,
                        s.fragments.text@[i].position,
                        s.fragments.text@[i].placeholders@,
                        a@[i],
                    ),
                _ => false,
            }
            &&& match spec_get(fr, "images"@) {
                Some(JsonValue::Arr(a)) => s.fragments.images@.len() == a@.len() && forall|i: int|
                    0 <= i < a@.len() ==> fragment_fields_match(
                        (#[trigger] s.fragments.images@[i]).src@,
                        s.fragments.images@[i].position,
                        s.fragments.images@[i].placeholders@,
                        a@[i],
                    ),
                _ => false,
            }
            &&& match spec_get(fr, "shapes"@) {
                Some(JsonValue::Arr(a)) => s.fragments.shapes@.len() == a@.len() && forall|i: int|
                    0 <= i < a@.len() ==> shape_fragment_matches(
                        #[trigger] s.fragments.shapes@[i],
                        a@[i],
                    ),
                _ => false,
            }
        },
        None => false,
    }
}

fn parse_u32_field(v: &JsonValue, key: &str) -> (r: Option<u32>)
    ensures
        r is Some <==> u32_field_ok(*v, key@),
        r matches Some(n) ==> n == spec_num_field(*v, key@),
{
    match v.get_field(key) {
        Some(f) => match f.as_u64() {
            Some(n) => {
                if n <= u32::MAX as u64 {
                    Some(n as u32)
                } else {
                    None
                }
            },
            None => None,
        },
        None => None,
    }
}

pub(crate) fn parse_u64_field(v: &JsonValue, key: &str) -> (r: Option<u64>)
    ensures
        r is Some <==> u64_field_ok(*v, key@),
        r matches Some(n) ==> n == spec_num_field(*v, key@),
{
    match v.get_field(key) {
        Some(f) => f.as_u64(),
        None => None,
    }
}

fn parse_string_field(v: &JsonValue, key: &str) -> (r: Option<String>)
    ensures
        r is Some <==> str_field_ok(*v, key@),
        r matches Some(s) ==> s@ == spec_str_field(*v, key@),
{
    match v.get_field(key) {
        Some(f) => match f.as_str() {
            Some(s) => Some(s.clone()),
            None => None,
        },
        None => None,
    }
}

fn parse_position(v: &JsonValue) -> (r: Option<Position>)
    ensures
        r is Some <==> position_ok(*v),
        r matches Some(p) ==> position_matches(p, *v),
{
    let x = match parse_u32_field(v, "x") {
        Some(x) => x,
        None => {
            return None;
        },
    };
    let y = match parse_u32_field(v, "y") {
        Some(y) => y,
        None => {
            return None;
        },
    };
    Some(Position { x, y })
}

fn parse_content_box(v: &JsonValue) -> (r: Option<ContentBox>)
    ensures
        r is Some <==> content_box_ok(*v),
        r matches Some(c) ==> content_box_matches(c, *v),
{
    let width = match parse_u32_field(v, "width") {
        Some(x) => x,
        None => {
            return None;
        },
    };
    let height = match parse_u32_field(v, "height") {
        Some(x) => x,
        None => {
            return None;
        },
    };
    let raster_x = match parse_u32_field(v, "rasterX") {
        Some(x) => x,
        None => {
            return None;
        },
    };
    let raster_y = match parse_u32_field(v, "rasterY") {
        Some(x) => x,
        None => {
            return None;
        },
    };
    Some(ContentBox { width, height, raster_x, raster_y })
}

fn parse_raster_size(v: &JsonValue) -> (r: Option<RasterSize>)
    ensures
        r is Some <==> raster_size_ok(*v),
        r matches Some(s) ==> raster_size_matches(s, *v),
{
    let width = match parse_u32_field(v, "width") {
        Some(x) => x,
        None => {
            return None;
        },
    };
    let height = match parse_u32_field(v, "height") {
        Some(x) => x,
        None => {
            return None;
        },
    };
    Some(RasterSize { width, height })
}

fn parse_static_base(v: &JsonValue) -> (r: Option<StaticBase>)
    ensures
        r is Some <==> static_base_ok(*v),
        r matches Some(b) ==> static_base_matches(b, *v),
{
    let opaque = match parse_string_field(v, "opaque") {
        Some(s) => s,
        None => {
            return None;
        },
    };
    let translucent = match parse_string_field(v, "translucent") {
        Some(s) => s,
        None => {
            return None;
        },
    };
    let mask = match parse_string_field(v, "mask") {
        Some(s) => s,
        None => {
            return None;
        },
    };
    Some(StaticBase { opaque, translucent, mask })
}

fn parse_string_list(v: &JsonValue) -> (r: Option<Vec<String>>)
    ensures
        r is Some <==> string_list_ok(*v),
        r matches Some(l) ==> string_list_matches(l@, *v),
{
    match v.as_array() {
        Some(arr) => {
            let mut out: Vec<String> = Vec::new();
            let mut i: usize = 0;
            while i < arr.len()
                invariant
                    i <= arr@.len(),
                    out@.len() == i,
                    (match *v {
                        JsonValue::Arr(a) => a == *arr,
                        _ => false,
                    }),
                    forall|k: int|
                        0 <= k < i ==> match #[trigger] arr@[k] {
                            JsonValue::Str(s) => out@[k]@ == s@,
                            _ => false,
                        },
                decreases arr@.len() - i,
            {
                let elem = &arr[i];
                match elem.as_str() {
                    Some(s) => {
                        out.push(s.clone());
                    },
                    None => {
                        return None;
                    },
                }
                i = i + 1;
            }
            Some(out)
        },
        None => None,
    }
}

fn parse_mode(v: &JsonValue) -> (r: Option<Mode>)
    ensures
        r is Some <==> mode_ok(*v),
        r matches Some(m) ==> mode_matches(m, *v),
{
    match v.as_str() {
        Some(s) => {
            if crate::strutil::str_eq(s.as_str(), "fixed") {
                Some(Mode::Fixed)
            } else if crate::strutil::str_eq(s.as_str(), "dynamic") {
                Some(Mode::Dynamic)
            } else {
                None
            }
        },
        None => None,
    }
}

fn parse_mode_field(v: &JsonValue, key: &str) -> (r: Option<Mode>)
    ensures
        r is Some <==> match spec_get(*v, key@) {
            Some(m) => mode_ok(m),
            None => false,
        },
        r matches Some(md) ==> match spec_get(*v, key@) {
            Some(m) => mode_matches(md, m),
            None => false,
        },
{
    match v.get_field(key) {
        Some(f) => parse_mode(f),
        None => None,
    }
}

fn parse_fragment_fields(v: &JsonValue) -> (r: Option<(String, Position, Vec<String>)>)
    ensures
        r is Some <==> fragment_fields_ok(*v),
        r matches Some(t) ==> fragment_fields_match(t.0@, t.1, t.2@, *v),
{
    let src = match parse_string_field(v, "src") {
        Some(s) => s,
        None => {
            return None;
        },
    };
    let position = match v.get_field("position") {
        Some(p) => match parse_position(p) {
            Some(p) => p,
            None => {
                return None;
            },
        },
        None => {
            return None;
        },
    };
    let placeholders = match v.get_field("placeholders") {
        Some(l) => match parse_string_list(l) {
            Some(l) => l,
            None => {
                return None;
            },
        },
        None => {
            return None;
        },
    };
    Some((src, position, placeholders))
}

fn parse_text_fragments(v: &JsonValue) -> (r: Option<Vec<TextFragment>>)
    ensures
        r is Some <==> fragment_list_ok(*v),
        r matches Some(l) ==> match *v {
            JsonValue::Arr(a) => l@.len() == a@.len() && forall|i: int|
                0 <= i < a@.len() ==> fragment_fields_match(
                    (#[trigger] l@[i]).src@,
                    l@[i].position,
                    l@[i].placeholders@,
                    a@[i],
                ),
            _ => false,
        },
{
    match v.as_array() {
        Some(arr) => {
            let mut out: Vec<TextFragment> = Vec::new();
            let mut i: usize = 0;
            while i < arr.len()
                invariant
                    i <= arr@.len(),
                    out@.len() == i,
                    (match *v {
                        JsonValue::Arr(a) => a == *arr,
                        _ => false,
                    }),
                    forall|k: int|
                        0 <= k < i ==> fragment_fields_match(
                            (#[trigger] out@[k]).src@,
                            out@[k].position,
                            out@[k].placeholders@,
                            arr@[k],
                        ),
                    forall|k: int| 0 <= k < i ==> fragment_fields_ok(#[trigger] arr@[k]),
                decreases arr@.len() - i,
            {
                match parse_fragment_fields(&arr[i]) {
                    Some((src, position, placeholders)) => {
                        out.push(TextFragment { src, position, placeholders });
                    },
                    None => {
                        return None;
                    },
                }
                i = i + 1;
            }
            Some(out)
        },
        None => None,
    }
}

fn parse_image_fragments(v: &JsonValue) -> (r: Option<Vec<ImageFragment>>)
    ensures
        r is Some <==> fragment_list_ok(*v),
        r matches Some(l) ==> match *v {
            JsonValue::Arr(a) => l@.len() == a@.len() && forall|i: int|
                0 <= i < a@.len() ==> fragment_fields_match(
                    (#[trigger] l@[i]).src@,
                    l@[i].position,
                    l@[i].placeholders@,
                    a@[i],
                ),
            _ => false,
        },
{
    match v.as_array() {
        Some(arr) => {
            let mut out: Vec<ImageFragment> = Vec::new();
            let mut i: usize = 0;
            while i < arr.len()
                invariant
                    i <= arr@.len(),
                    out@.len() == i,
                    (match *v {
                        JsonValue::Arr(a) => a == *arr,
                        _ => false,
                    }),
                    forall|k: int|
                        0 <= k < i ==> fragment_fields_match(
                            (#[trigger] out@[k]).src@,
                            out@[k].position,
                            out@[k].placeholders@,
                            arr@[k],
                        ),
                    forall|k: int| 0 <= k < i ==> fragment_fields_ok(#[trigger] arr@[k]),
                decreases arr@.len() - i,
            {
                match parse_fragment_fields(&arr[i]) {
                    Some((src, position, placeholders)) => {
                        out.push(ImageFragment { src, position, placeholders });
                    },
                    None => {
                        return None;
                    },
                }
                i = i + 1;
            }
            Some(out)
        },
        None => None,
    }
}

fn parse_shape_fragments(v: &JsonValue) -> (r: Option<Vec<ShapeFragment>>)
    ensures
        r is Some <==> shape_fragment_list_ok(*v),
        r matches Some(l) ==> match *v {
            JsonValue::Arr(a) => l@.len() == a@.len() && forall|i: int|
                0 <= i < a@.len() ==> shape_fragment_matches(#[trigger] l@[i], a@[i]),
            _ => false,
        },
{
    match v.as_array() {
        Some(arr) => {
            let mut out: Vec<ShapeFragment> = Vec::new();
            let mut i: usize = 0;
            while i < arr.len()
                invariant
                    i <= arr@.len(),
                    out@.len() == i,
                    (match *v {
                        JsonValue::Arr(a) => a == *arr,
                        _ => false,
                    }),
                    forall|k: int|
                        0 <= k < i ==> shape_fragment_matches(#[trigger] out@[k], arr@[k]),
                    forall|k: int| 0 <= k < i ==> shape_fragment_ok(#[trigger] arr@[k]),
                decreases arr@.len() - i,
            {
                let elem = &arr[i];
                let (src, position, placeholders) = match parse_fragment_fields(elem) {
                    Some(t) => t,
                    None => {
                        return None;
                    },
                };
                let width_mode = match parse_mode_field(elem, "widthMode") {
                    Some(m) => m,
                    None => {
                        return None;
                    },
                };
                let height_mode = match parse_mode_field(elem, "heightMode") {
                    Some(m) => m,
                    None => {
                        return None;
                    },
                };
                let color_mode = match parse_mode_field(elem, "colorMode") {
                    Some(m) => m,
                    None => {
                        return None;
                    },
                };
                out.push(
                    ShapeFragment {
                        src,
                        position,
                        placeholders,
                        width_mode,
                        height_mode,
                        color_mode,
                    },
                );
                i = i + 1;
            }
            Some(out)
        },
        None => None,
    }
}

/// Load a decoded JSON document into the schema v1 model. Every required
/// field is checked for presence and shape; a missing or mistyped field
/// makes the whole document malformed.
///
/// # Parameters
///
/// - `schema_fp`: The filepath of the schema file.
/// - `doc`: The decoded JSON document loaded from the schema file.
pub fn load_schema_v1(schema_fp: &str, doc: &JsonValue) -> (r: Result<Schema, SchemaError>)
    ensures
        r is Ok <==> schema_doc_ok(*doc),
        r matches Ok(s) ==> schema_matches_doc(s, *doc, schema_fp@),
        r matches Err(e) ==> e matches SchemaError::MalformedSchema(_),
{
    let schema_version = match parse_u64_field(doc, "schemaVersion") {
        Some(n) => n,
        None => {
            return Err(
                SchemaError::MalformedSchema(String::from_str("Missing 'schemaVersion'")),
            );
        },
    };
    let id = match parse_string_field(doc, "id") {
        Some(s) => s,
        None => {
            return Err(SchemaError::MalformedSchema(String::from_str("Missing 'id'")));
        },
    };
    let name = match parse_string_field(doc, "name") {
        Some(s) => s,
        None => {
            return Err(SchemaError::MalformedSchema(String::from_str("Missing 'name'")));
        },
    };
    let content_box = match doc.get_field("contentBox") {
        Some(v) => match parse_content_box(v) {
            Some(c) => c,
            None => {
                return Err(
                    SchemaError::MalformedSchema(String::from_str("Missing 'contentBox'")),
                );
            },
        },
        None => {
            return Err(SchemaError::MalformedSchema(String::from_str("Missing 'contentBox'")));
        },
    };
    let raster_size = match doc.get_field("rasterSize") {
        Some(v) => match parse_raster_size(v) {
            Some(c) => c,
            None => {
                return Err(
                    SchemaError::MalformedSchema(String::from_str("Missing 'rasterSize'")),
                );
            },
        },
        None => {
            return Err(SchemaError::MalformedSchema(String::from_str("Missing 'rasterSize'")));
        },
    };
    let static_base = match doc.get_field("staticBase") {
        Some(v) => match parse_static_base(v) {
            Some(c) => c,
            None => {
                return Err(
                    SchemaError::MalformedSchema(String::from_str("Missing 'staticBase'")),
                );
            },
        },
        None => {
            return Err(SchemaError::MalformedSchema(String::from_str("Missing 'staticBase'")));
        },
    };
    let fragments_doc = match doc.get_field("fragments") {
        Some(v) => v,
        None => {
            return Err(SchemaError::MalformedSchema(String::from_str("Missing 'fragments'")));
        },
    };
    let text = match fragments_doc.get_field("text") {
        Some(v) => match parse_text_fragments(v) {
            Some(l) => l,
            None => {
                return Err(
                    SchemaError::MalformedSchema(String::from_str("Mistyped 'fragments.text'")),
                );
            },
        },
        None => {
            return Err(
                SchemaError::MalformedSchema(String::from_str("Missing 'fragments.text'")),
            );
        },
    };
    let images = match fragments_doc.get_field("images") {
        Some(v) => match parse_image_fragments(v) {
            Some(l) => l,
            None => {
                return Err(
                    SchemaError::MalformedSchema(
                        String::from_str("Mistyped 'fragments.images'"),
                    ),
                );
            },
        },
        None => {
            return Err(
                SchemaError::MalformedSchema(String::from_str("Missing 'fragments.images'")),
            );
        },
    };
    let shapes = match fragments_doc.get_field("shapes") {
        Some(v) => match parse_shape_fragments(v) {
            Some(l) => l,
            None => {
                return Err(
                    SchemaError::MalformedSchema(
                        String::from_str("Mistyped 'fragments.shapes'"),
                    ),
                );
            },
        },
        None => {
            return Err(
                SchemaError::MalformedSchema(String::from_str("Missing 'fragments.shapes'")),
            );
        },
    };
    let mut schema_file = String::new();
    schema_file.append(schema_fp);
    Ok(
        Schema {
            schema_file,
            schema_version,
            id,
            name,
            content_box,
            raster_size,
            static_base,
            fragments: DynamicFragments { images, text, shapes },
        },
    )
}


} // verus!
