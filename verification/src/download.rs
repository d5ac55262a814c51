//! Downloads: the downloader's command line and the choices made around a
//! download.

use vstd::prelude::*;

verus! {

/// The arguments of the downloader for writing `url` to `output`, with the
/// cookie file `cookie_jar` where there is one.
pub open spec fn yt_dlp_args_seq(output: Seq<char>, url: Seq<char>, cookie_jar: Option<Seq<char>>) -> Seq<Seq<char>> {
    let base = seq![
        "-o"@,
        output,
        "--merge-output-format"@,
        "mp4"@,
        "--extractor-retries"@,
        "5"@,
        "--retry-sleep"@,
        "extractor:exp=1:8"@,
        "--sleep-requests"@,
        "1"@,
        "--no-warnings"@,
    ];
    match cookie_jar {
        Some(j) => base + seq!["--cookies"@, j, url],
        None => base + seq![url],
    }
}

/// Whatever the cookie jar, the downloader is told to write to `output`
/// (the argument right after `-o`) and to fetch `url` (the last argument);
/// a cookie jar comes as `--cookies` and its path just before the URL.
pub proof fn law_yt_dlp_args_places(output: Seq<char>, url: Seq<char>, cookie_jar: Option<Seq<char>>)
    ensures
        yt_dlp_args_seq(output, url, cookie_jar).len() >= 12,
        yt_dlp_args_seq(output, url, cookie_jar)[0] == "-o"@,
        yt_dlp_args_seq(output, url, cookie_jar)[1] == output,
        yt_dlp_args_seq(output, url, cookie_jar).last() == url,
        cookie_jar matches Some(j) ==> yt_dlp_args_seq(output, url, cookie_jar).len() == 14
            && yt_dlp_args_seq(output, url, cookie_jar)[11] == "--cookies"@ && yt_dlp_args_seq(
            output,
            url,
            cookie_jar,
        )[12] == j,
        cookie_jar is None ==> yt_dlp_args_seq(output, url, cookie_jar).len() == 12,
        yt_dlp_args_seq(output, url, cookie_jar).subrange(2, 11) == seq![
            "--merge-output-format"@,
            "mp4"@,
            "--extractor-retries"@,
            "5"@,
            "--retry-sleep"@,
            "extractor:exp=1:8"@,
            "--sleep-requests"@,
            "1"@,
            "--no-warnings"@,
        ],
{
    assert(yt_dlp_args_seq(output, url, cookie_jar).subrange(2, 11) =~= seq![
        "--merge-output-format"@,
        "mp4"@,
        "--extractor-retries"@,
        "5"@,
        "--retry-sleep"@,
        "extractor:exp=1:8"@,
        "--sleep-requests"@,
        "1"@,
        "--no-warnings"@,
    ]);
}

fn push_str(v: &mut Vec<String>, s: &str)
    ensures
        final(v).deep_view() == old(v).deep_view().push(s@),
{
    let ghost before = v.deep_view();
    v.push(String::from_str(s));
    assert(v.deep_view() =~= before.push(s@));
}

/// The downloader's arguments.
pub fn yt_dlp_args(output: &str, url: &str, cookie_jar: Option<&str>) -> (r: Vec<String>)
    ensures
        r.deep_view() == yt_dlp_args_seq(
            output@,
            url@,
            match cookie_jar {
                Some(j) => Some(j@),
                None => None,
            },
        ),
        r.deep_view().len() >= 12,
        r.deep_view()[0] == "-o"@,
        r.deep_view()[1] == output@,
        r.deep_view().last() == url@,
        cookie_jar matches Some(j) ==> r.deep_view().len() == 14 && r.deep_view()[11] == "--cookies"@
            && r.deep_view()[12] == j@,
        cookie_jar is None ==> r.deep_view().len() == 12,
{
    proof {
        law_yt_dlp_args_places(output@, url@, match cookie_jar {
            Some(j) => Some(j@),
            None => None,
        });
    }
    let mut v: Vec<String> = Vec::new();
    push_str(&mut v, "-o");
    push_str(&mut v, output);
    push_str(&mut v, "--merge-output-format");
    push_str(&mut v, "mp4");
    push_str(&mut v, "--extractor-retries");
    push_str(&mut v, "5");
    push_str(&mut v, "--retry-sleep");
    push_str(&mut v, "extractor:exp=1:8");
    push_str(&mut v, "--sleep-requests");
    push_str(&mut v, "1");
    push_str(&mut v, "--no-warnings");
    match cookie_jar {
        Some(j) => {
            push_str(&mut v, "--cookies");
            push_str(&mut v, j);
        },
        None => {},
    }
    push_str(&mut v, url);
    let ghost want = yt_dlp_args_seq(
        output@,
        url@,
        match cookie_jar {
            Some(j) => Some(j@),
            None => None,
        },
    );
    assert(v.deep_view() =~= want);
    v
}

/// What to do for a video that is owed a download.
#[derive(Debug, PartialEq, Eq)]
pub enum DownloadAction {
    /// Its file is already there.
    AlreadyOnDisk,
    /// Another copy exists at this path: link the file to it.
    LinkFrom(String),
    /// Run the downloader.
    Fetch,
}

/// The action for a video whose file does or does not exist, given the
/// path of another copy of the same video, if one was found.
pub fn download_action(target_exists: bool, existing_copy: Option<String>) -> (r: DownloadAction)
    ensures
        target_exists ==> r == DownloadAction::AlreadyOnDisk,
        !target_exists ==> match existing_copy {
            Some(p) => r == DownloadAction::LinkFrom(p),
            None => r == DownloadAction::Fetch,
        },
{
    if target_exists {
        return DownloadAction::AlreadyOnDisk;
    }
    match existing_copy {
        Some(p) => DownloadAction::LinkFrom(p),
        None => DownloadAction::Fetch,
    }
}

/// What spreading an existing file does for one video with the same id.
#[derive(Debug, Clone, Copy, PartialEq, Eq, Structural)]
pub enum PropagationStep {
    /// Mark it downloaded: its file is there.
    Mark,
    /// Link its file to the existing one, then mark it downloaded.
    LinkAndMark,
    /// Leave it.
    Skip,
}

/// A video owed a download is marked downloaded when its file is there, and
/// linked first when it is not; other videos are left.
pub fn propagation_step(target_exists: bool, pending: bool) -> (r: PropagationStep)
    ensures
        r == if !pending {
            PropagationStep::Skip
        } else if target_exists {
            PropagationStep::Mark
        } else {
            PropagationStep::LinkAndMark
        },
{
    if target_exists {
        if pending {
            PropagationStep::Mark
        } else {
            PropagationStep::Skip
        }
    } else if !pending {
        PropagationStep::Skip
    } else {
        PropagationStep::LinkAndMark
    }
}

/// What a favorites pass does for a new favorite, by whether the video is
/// already on disk under its author and whether its copy in the favorites
/// folder exists.
#[derive(Debug, Clone, Copy, PartialEq, Eq, Structural)]
pub enum FavFileStep {
    /// Not on disk: it stays owed a download.
    Pending,
    /// Both copies are there: mark it downloaded.
    Mark,
    /// Link the favorites copy to the author's file, then mark it downloaded.
    LinkAndMark,
}

/// A new favorite already downloaded under its author is linked into the
/// favorites folder when its copy there is missing, and is marked
/// downloaded; one not on disk stays owed a download.
pub fn fav_file_step(on_disk: bool, fav_file_exists: bool) -> (r: FavFileStep)
    ensures
        r == if !on_disk {
            FavFileStep::Pending
        } else if fav_file_exists {
            FavFileStep::Mark
        } else {
            FavFileStep::LinkAndMark
        },
{
    if !on_disk {
        FavFileStep::Pending
    } else if fav_file_exists {
        FavFileStep::Mark
    } else {
        FavFileStep::LinkAndMark
    }
}

} // verus!
