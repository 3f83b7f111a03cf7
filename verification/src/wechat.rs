//! What the chat client has on this host: whether it is installed, where,
//! and how its data divides into chat records, files, media and the rest.

use vstd::prelude::*;
use crate::aggregate::sat64;
use crate::appdata::{
    DataFile, breakdown, bucket_bytes, file_views, lemma_bucket_within_total,
    lemma_buckets_add_up, sum_buckets, total_bytes,
};
use crate::builtin::{is_wechat_category, wechat_category, wechat_table};
use crate::paths::{join, joined};
use crate::registry::{Category, spec_views, specs_well_formed};
use crate::resolve::{
    Host, below, candidate, candidates, find_installed, install_path, resolve_category,
    variable_value,
};

verus! {

/// The chat client on this host. The sizes are in bytes, and each stops at
/// the largest `u64`.
#[derive(Clone, Debug)]
pub struct WeChatInfo {
    pub installed: bool,
    pub install_path: String,
    pub data_path: String,
    pub chat_bytes: u64,
    pub file_bytes: u64,
    pub media_bytes: u64,
    pub other_bytes: u64,
}

/// The name under which the chat client is installed.
pub open spec fn wechat_name() -> Seq<char> {
    "WeChat"@
}

/// The data directory of the chat client on `host`; empty where the host
/// does not say where the user's profile is.
pub open spec fn wechat_data_path(host: Host) -> Seq<char> {
    match below(variable_value(host.variables@, "USERPROFILE"@), "Documents\\WeChat Files"@) {
        Some(p) => p,
        None => Seq::empty(),
    }
}

/// The program that starts the chat client on `host`, where it is
/// installed.
pub open spec fn wechat_program(host: Host) -> Option<Seq<char>> {
    match install_path(host.installed@, wechat_name()) {
        Some(dir) => Some(joined(dir, "WeChat.exe"@)),
        None => None,
    }
}

/// The path of the program to start in order to open the chat client;
/// `None` where it is not installed.
pub fn wechat_executable(host: &Host) -> (path: Option<String>)
    ensures
        path.deep_view() == wechat_program(*host),
{
    let name = String::from_str("WeChat");
    match find_installed(&host.installed, &name) {
        Some(dir) => Some(join(dir.as_str(), "WeChat.exe")),
        None => None,
    }
}

/// Resolves the one path spec of the chat client's category.
fn data_directory(category: &Category, host: &Host) -> (path: String)
    requires
        is_wechat_category(*category),
        specs_well_formed(*category),
        category.path_specs@.len() == 1,
    ensures
        path@ == wechat_data_path(*host),
{
    let ghost spec = category.path_specs@[0];
    proof {
        reveal_with_fuel(candidates, 2);
        assert(spec_views(category.path_specs@)[0] == spec@);
    }
    match resolve_category(category, host) {
        Ok(paths) => {
            let ghost found = candidates(category.path_specs@, *host);
            assert(found == match candidate(spec, *host) {
                Some(p) => Seq::<Seq<char>>::empty().push(p),
                None => Seq::<Seq<char>>::empty(),
            });
            if paths.len() > 0 {
                assert(paths.deep_view()[0] == paths@[0]@);
                paths[0].clone()
            } else {
                String::new()
            }
        },
        Err(_) => {
            // the one path spec of the category is well formed
            assert(false);
            String::new()
        },
    }
}

/// Reports on the chat client. `files` are the files of its data directory,
/// with their paths below it. Where the client is not installed, the report
/// says so and holds nothing else. Where the data fits into a `u64`, the
/// four sizes add up to it exactly.
pub fn get_wechat_info(host: &Host, files: &Vec<DataFile>) -> (info: WeChatInfo)
    ensures
        info.installed == (install_path(host.installed@, wechat_name()) is Some),
        match install_path(host.installed@, wechat_name()) {
            Some(p) => {
                &&& info.install_path@ == p
                &&& info.data_path@ == wechat_data_path(*host)
                &&& info.chat_bytes == sat64(bucket_bytes(wechat_table(), file_views(files@), 0) as int)
                &&& info.file_bytes == sat64(bucket_bytes(wechat_table(), file_views(files@), 1) as int)
                &&& info.media_bytes == sat64(bucket_bytes(wechat_table(), file_views(files@), 2) as int)
                &&& info.other_bytes == sat64(bucket_bytes(wechat_table(), file_views(files@), 3) as int)
            },
            None => {
                &&& info.install_path@.len() == 0
                &&& info.data_path@.len() == 0
                &&& info.chat_bytes == 0
                &&& info.file_bytes == 0
                &&& info.media_bytes == 0
                &&& info.other_bytes == 0
            },
        },
        info.installed && total_bytes(file_views(files@)) <= u64::MAX ==> info.chat_bytes + info.file_bytes
            + info.media_bytes + info.other_bytes == total_bytes(file_views(files@)),
{
    let name = String::from_str("WeChat");
    match find_installed(&host.installed, &name) {
        None => WeChatInfo {
            installed: false,
            install_path: String::new(),
            data_path: String::new(),
            chat_bytes: 0,
            file_bytes: 0,
            media_bytes: 0,
            other_bytes: 0,
        },
        Some(installed_at) => {
            let category = wechat_category();
            let data_path = data_directory(&category, host);
            let sizes = match &category.sub_breakdown {
                Some(buckets) => breakdown(buckets, files),
                None => {
                    // the category has its three buckets
                    assert(false);
                    breakdown(&Vec::new(), files)
                },
            };
            proof {
                reveal_with_fuel(sum_buckets, 5);
                lemma_buckets_add_up(wechat_table(), file_views(files@));
                lemma_bucket_within_total(wechat_table(), file_views(files@), 0);
                lemma_bucket_within_total(wechat_table(), file_views(files@), 1);
                lemma_bucket_within_total(wechat_table(), file_views(files@), 2);
                lemma_bucket_within_total(wechat_table(), file_views(files@), 3);
            }
            WeChatInfo {
                installed: true,
                install_path: installed_at,
                data_path,
                chat_bytes: sizes.named[0],
                file_bytes: sizes.named[1],
                media_bytes: sizes.named[2],
                other_bytes: sizes.residual,
            }
        },
    }
}

} // verus!
