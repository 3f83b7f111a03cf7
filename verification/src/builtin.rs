//! The categories that this tool ships with.

use vstd::prelude::*;
use crate::paths::safe_relative;
use crate::appdata::prefix_table;
use crate::registry::{
    Category, PathSpec, PathSpecView, SubCategory, spec_views, specs_well_formed, valid,
};

verus! {

/// A relative path without a `.` in it never steps to `.` or `..`.
proof fn lemma_dotless_is_safe(s: Seq<char>)
    requires
        forall|k: int| 0 <= k < s.len() ==> #[trigger] s[k] != '.',
    ensures
        safe_relative(s),
{
}

/// The spec that stands for a path written out in full.
pub open spec fn literal_view(path: Seq<char>) -> PathSpecView {
    PathSpecView::Literal { path }
}

/// The spec that stands for `relative` below what `variable` names.
pub open spec fn variable_view(variable: Seq<char>, relative: Seq<char>) -> PathSpecView {
    PathSpecView::EnvRelative { variable, relative }
}

/// `c` is the category `id`, called `name`, with the path specs `specs` and
/// no sub-categories.
pub open spec fn describes(c: Category, id: u32, name: Seq<char>, specs: Seq<PathSpecView>) -> bool {
    &&& c.id == id
    &&& c.name@ == name
    &&& spec_views(c.path_specs@) == specs
    &&& c.sub_breakdown is None
}

fn literal(path: &str) -> (s: PathSpec)
    requires
        path@.len() > 0,
    ensures
        s@ == literal_view(path@),
        s.well_formed(),
{
    PathSpec::Literal { path: String::from_str(path) }
}

fn below_variable(variable: &str, relative: &str) -> (s: PathSpec)
    requires
        variable@.len() > 0,
        safe_relative(relative@),
    ensures
        s@ == variable_view(variable@, relative@),
        s.well_formed(),
{
    PathSpec::EnvRelative {
        variable: String::from_str(variable),
        relative: String::from_str(relative),
    }
}

fn category(id: u32, name: &str, specs: Vec<PathSpec>) -> (c: Category)
    requires
        forall|k: int| 0 <= k < specs@.len() ==> (#[trigger] specs@[k]).well_formed(),
    ensures
        describes(c, id, name@, spec_views(specs@)),
        c.path_specs@.len() == specs@.len(),
        specs_well_formed(c),
{
    Category { id, name: String::from_str(name), path_specs: specs, sub_breakdown: None }
}

fn one(a: PathSpec) -> (v: Vec<PathSpec>)
    ensures
        v@ == seq![a],
        spec_views(v@) == seq![a@],
{
    let mut v: Vec<PathSpec> = Vec::new();
    v.push(a);
    v
}

fn two(a: PathSpec, b: PathSpec) -> (v: Vec<PathSpec>)
    ensures
        v@ == seq![a, b],
        spec_views(v@) == seq![a@, b@],
{
    let mut v: Vec<PathSpec> = Vec::new();
    v.push(a);
    v.push(b);
    v
}

fn three(a: PathSpec, b: PathSpec, c: PathSpec) -> (v: Vec<PathSpec>)
    ensures
        v@ == seq![a, b, c],
        spec_views(v@) == seq![a@, b@, c@],
{
    let mut v: Vec<PathSpec> = Vec::new();
    v.push(a);
    v.push(b);
    v.push(c);
    v
}

/// The shipped table: seven categories with the ids 1 to 7, in this order,
/// none of them with sub-categories.
pub open spec fn is_shipped_table(v: Seq<Category>) -> bool {
    &&& v.len() == 7
    &&& describes(
        v[0],
        1,
        "系统临时文件"@,
        seq![variable_view("TEMP"@, ""@), literal_view("C:\\Windows\\Temp"@)],
    )
    &&& describes(
        v[1],
        2,
        "浏览器缓存"@,
        seq![
            variable_view("LOCALAPPDATA"@, "Google\\Chrome\\User Data\\Default\\Cache"@),
            variable_view("LOCALAPPDATA"@, "Microsoft\\Edge\\User Data\\Default\\Cache"@),
            variable_view("LOCALAPPDATA"@, "Mozilla\\Firefox\\Profiles"@),
        ],
    )
    &&& describes(v[2], 3, "回收站"@, seq![literal_view("C:\\$Recycle.Bin"@)])
    &&& describes(
        v[3],
        4,
        "Windows更新缓存"@,
        seq![literal_view("C:\\Windows\\SoftwareDistribution\\Download"@)],
    )
    &&& describes(
        v[4],
        5,
        "系统文件清理"@,
        seq![
            literal_view("C:\\ProgramData\\Microsoft\\Windows\\WER"@),
            literal_view("C:\\Windows\\Prefetch"@),
        ],
    )
    &&& describes(v[5], 6, "下载目录"@, seq![variable_view("USERPROFILE"@, "Downloads"@)])
    &&& describes(
        v[6],
        7,
        "应用缓存"@,
        seq![variable_view("USERPROFILE"@, "AppData\\Local\\Temp"@)],
    )
}

/// Builds the shipped table.
pub fn shipped_categories() -> (v: Vec<Category>)
    ensures
        valid(v@),
        is_shipped_table(v@),
{
    proof {
        reveal_strlit("TEMP");
        reveal_strlit("LOCALAPPDATA");
        reveal_strlit("USERPROFILE");
        reveal_strlit("");
        reveal_strlit("C:\\Windows\\Temp");
        reveal_strlit("Google\\Chrome\\User Data\\Default\\Cache");
        reveal_strlit("Microsoft\\Edge\\User Data\\Default\\Cache");
        reveal_strlit("Mozilla\\Firefox\\Profiles");
        reveal_strlit("C:\\$Recycle.Bin");
        reveal_strlit("C:\\Windows\\SoftwareDistribution\\Download");
        reveal_strlit("C:\\ProgramData\\Microsoft\\Windows\\WER");
        reveal_strlit("C:\\Windows\\Prefetch");
        reveal_strlit("Downloads");
        reveal_strlit("AppData\\Local\\Temp");
        lemma_dotless_is_safe(""@);
        lemma_dotless_is_safe("Google\\Chrome\\User Data\\Default\\Cache"@);
        lemma_dotless_is_safe("Microsoft\\Edge\\User Data\\Default\\Cache"@);
        lemma_dotless_is_safe("Mozilla\\Firefox\\Profiles"@);
        lemma_dotless_is_safe("Downloads"@);
        lemma_dotless_is_safe("AppData\\Local\\Temp"@);
    }
    let c1 = category(
        1,
        "系统临时文件",
        two(below_variable("TEMP", ""), literal("C:\\Windows\\Temp")),
    );
    let c2 = category(
        2,
        "浏览器缓存",
        three(
            below_variable("LOCALAPPDATA", "Google\\Chrome\\User Data\\Default\\Cache"),
            below_variable("LOCALAPPDATA", "Microsoft\\Edge\\User Data\\Default\\Cache"),
            below_variable("LOCALAPPDATA", "Mozilla\\Firefox\\Profiles"),
        ),
    );
    let c3 = category(3, "回收站", one(literal("C:\\$Recycle.Bin")));
    let c4 = category(
        4,
        "Windows更新缓存",
        one(literal("C:\\Windows\\SoftwareDistribution\\Download")),
    );
    let c5 = category(
        5,
        "系统文件清理",
        two(
            literal("C:\\ProgramData\\Microsoft\\Windows\\WER"),
            literal("C:\\Windows\\Prefetch"),
        ),
    );
    let c6 = category(6, "下载目录", one(below_variable("USERPROFILE", "Downloads")));
    let c7 = category(7, "应用缓存", one(below_variable("USERPROFILE", "AppData\\Local\\Temp")));
    let mut v: Vec<Category> = Vec::new();
    v.push(c1);
    v.push(c2);
    v.push(c3);
    v.push(c4);
    v.push(c5);
    v.push(c6);
    v.push(c7);
    v
}

/// The buckets of the chat client's data: chat records, files sent and
/// received, and the media cache. What none of them claims is the rest.
pub open spec fn wechat_table() -> Seq<Seq<Seq<char>>> {
    seq![
        seq!["Msg"@],
        seq!["FileStorage\\File"@],
        seq!["FileStorage\\Image"@, "FileStorage\\Video"@, "FileStorage\\Cache"@],
    ]
}

/// Where the chat client keeps its data.
pub open spec fn wechat_data_spec() -> PathSpecView {
    variable_view("USERPROFILE"@, "Documents\\WeChat Files"@)
}

/// The category of the chat client's data: id 8, one path spec, and the
/// sub-categories `chat`, `file` and `media` with the buckets of
/// `wechat_table`.
pub open spec fn is_wechat_category(c: Category) -> bool {
    &&& c.id == 8
    &&& c.name@ == "微信"@
    &&& spec_views(c.path_specs@) == seq![wechat_data_spec()]
    &&& c.sub_breakdown matches Some(buckets)
    &&& prefix_table(buckets@) == wechat_table()
    &&& buckets@[0].name@ == "chat"@
    &&& buckets@[1].name@ == "file"@
    &&& buckets@[2].name@ == "media"@
}

fn bucket(name: &str, prefixes: Vec<String>) -> (b: SubCategory)
    ensures
        b.name@ == name@,
        b.prefixes == prefixes,
{
    SubCategory { name: String::from_str(name), prefixes }
}

/// The category of the chat client's data. It is kept out of the registry:
/// it is measured and broken down, never cleaned.
pub fn wechat_category() -> (c: Category)
    ensures
        is_wechat_category(c),
        specs_well_formed(c),
        c.path_specs@.len() == 1,
{
    proof {
        reveal_strlit("USERPROFILE");
        reveal_strlit("Documents\\WeChat Files");
        lemma_dotless_is_safe("Documents\\WeChat Files"@);
    }
    let mut chat: Vec<String> = Vec::new();
    chat.push(String::from_str("Msg"));
    let mut file: Vec<String> = Vec::new();
    file.push(String::from_str("FileStorage\\File"));
    let mut media: Vec<String> = Vec::new();
    media.push(String::from_str("FileStorage\\Image"));
    media.push(String::from_str("FileStorage\\Video"));
    media.push(String::from_str("FileStorage\\Cache"));
    assert(chat.deep_view() =~= seq!["Msg"@]);
    assert(file.deep_view() =~= seq!["FileStorage\\File"@]);
    assert(media.deep_view() =~= seq![
        "FileStorage\\Image"@,
        "FileStorage\\Video"@,
        "FileStorage\\Cache"@,
    ]);
    let mut buckets: Vec<SubCategory> = Vec::new();
    buckets.push(bucket("chat", chat));
    buckets.push(bucket("file", file));
    buckets.push(bucket("media", media));
    assert(prefix_table(buckets@) =~= wechat_table());
    let specs = one(below_variable("USERPROFILE", "Documents\\WeChat Files"));
    Category {
        id: 8,
        name: String::from_str("微信"),
        path_specs: specs,
        sub_breakdown: Some(buckets),
    }
}

} // verus!
