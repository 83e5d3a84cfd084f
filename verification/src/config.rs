//! Application configuration: the settings record and its update rules.
//! Reading and writing the configuration file on disk is the host's
//! business; the library only computes the next configuration value.

use vstd::prelude::*;

verus! {

/// UI preferences.
#[derive(Debug)]
pub struct UiPreferences {
    /// Dark mode enabled.
    pub dark_mode: bool,
    /// Auto-refresh interval in seconds; zero disables it.
    pub auto_refresh_interval: u32,
}

impl Default for UiPreferences {
    fn default() -> (r: UiPreferences)
        ensures
            r.dark_mode,
            r.auto_refresh_interval == 0,
    {
        UiPreferences { dark_mode: true, auto_refresh_interval: 0 }
    }
}

/// How many recent log files are kept by default.
pub fn default_max_recent() -> (n: usize)
    ensures
        n == 10,
{
    10
}

/// The default of a boolean setting that starts enabled.
pub fn default_true() -> (b: bool)
    ensures
        b,
{
    true
}

/// Application configuration.
#[derive(Debug)]
pub struct AppConfig {
    /// Custom directory for rules; the host's default applies when absent.
    pub rules_directory: Option<String>,
    /// Default directory offered when picking log files.
    pub default_logs_directory: Option<String>,
    /// Recently opened log files, most recent first.
    pub recent_log_files: Vec<String>,
    /// How many recent files are kept.
    pub max_recent_files: usize,
    pub ui_preferences: UiPreferences,
}

impl Default for AppConfig {
    fn default() -> (r: AppConfig)
        ensures
            r.rules_directory is None,
            r.default_logs_directory is None,
            r.recent_log_files@.len() == 0,
            r.max_recent_files == 10,
            r.ui_preferences.dark_mode,
            r.ui_preferences.auto_refresh_interval == 0,
    {
        AppConfig {
            rules_directory: None,
            default_logs_directory: None,
            recent_log_files: Vec::new(),
            max_recent_files: default_max_recent(),
            ui_preferences: UiPreferences::default(),
        }
    }
}

/// The views of a list of strings.
pub open spec fn str_views(s: Seq<String>) -> Seq<Seq<char>> {
    s.map_values(|x: String| x@)
}

/// The recent-files list with every copy of one path removed.
pub open spec fn without_path(files: Seq<Seq<char>>, p: Seq<char>) -> Seq<Seq<char>> {
    files.filter(|f: Seq<char>| f != p)
}

/// A list held to its maximum length.
pub open spec fn take_max(s: Seq<Seq<char>>, max: nat) -> Seq<Seq<char>> {
    if s.len() <= max {
        s
    } else {
        s.take(max as int)
    }
}

impl AppConfig {
    /// Sets the custom rules directory.
    pub fn set_rules_directory(&mut self, directory: Option<String>)
        ensures
            final(self).rules_directory == directory,
            final(self).default_logs_directory == old(self).default_logs_directory,
            final(self).recent_log_files == old(self).recent_log_files,
            final(self).max_recent_files == old(self).max_recent_files,
            final(self).ui_preferences == old(self).ui_preferences,
    {
        self.rules_directory = directory;
    }

    /// Sets the default logs directory.
    pub fn set_logs_directory(&mut self, directory: Option<String>)
        ensures
            final(self).default_logs_directory == directory,
            final(self).rules_directory == old(self).rules_directory,
            final(self).recent_log_files == old(self).recent_log_files,
            final(self).max_recent_files == old(self).max_recent_files,
            final(self).ui_preferences == old(self).ui_preferences,
    {
        self.default_logs_directory = directory;
    }

    /// Moves a log file to the front of the recent list: any earlier copy
    /// is removed, and the list is held to its maximum length.
    #[verifier::loop_isolation(false)]
    pub fn add_recent_log_file(&mut self, file_path: String)
        ensures
            str_views(final(self).recent_log_files@) == take_max(
                seq![file_path@] + without_path(
                    str_views(old(self).recent_log_files@),
                    file_path@,
                ),
                old(self).max_recent_files as nat,
            ),
            final(self).rules_directory == old(self).rules_directory,
            final(self).default_logs_directory == old(self).default_logs_directory,
            final(self).max_recent_files == old(self).max_recent_files,
            final(self).ui_preferences == old(self).ui_preferences,
    {
        let ghost p = file_path@;
        let ghost olds = str_views(old(self).recent_log_files@);
        let mut kept: Vec<String> = Vec::new();
        kept.push(file_path);
        proof {
            reveal(Seq::filter);
            assert(olds.take(0) =~= Seq::<Seq<char>>::empty());
            assert(without_path(olds.take(0), p) =~= Seq::<Seq<char>>::empty());
            assert(str_views(kept@) =~= seq![p] + without_path(olds.take(0), p));
        }
        let mut i: usize = 0;
        while i < self.recent_log_files.len()
            invariant
                0 <= i <= self.recent_log_files@.len(),
                self.recent_log_files == old(self).recent_log_files,
                self.max_recent_files == old(self).max_recent_files,
                self.rules_directory == old(self).rules_directory,
                self.default_logs_directory == old(self).default_logs_directory,
                self.ui_preferences == old(self).ui_preferences,
                kept@.len() >= 1,
                kept@[0]@ == p,
                str_views(kept@) == seq![p] + without_path(olds.take(i as int), p),
            decreases self.recent_log_files@.len() - i,
        {
            proof {
                reveal(Seq::filter);
                assert(olds.take(i + 1).drop_last() =~= olds.take(i as int));
                assert(olds.take(i + 1).last() == olds[i as int]);
            }
            let s = &self.recent_log_files[i];
            proof {
                assert(s@ == olds[i as int]);
            }
            let same = chars_equal(s, &kept[0]);
            if !same {
                let ghost before_push = kept@;
                kept.push(s.clone());
                proof {
                    reveal(Seq::filter);
                    assert(olds[i as int] != p);
                    assert(without_path(olds.take(i + 1), p) == without_path(
                        olds.take(i as int),
                        p,
                    ).push(olds[i as int]));
                    let lhs = str_views(kept@);
                    let rhs = seq![p] + without_path(olds.take(i + 1), p);
                    assert(kept@ == before_push.push(kept@.last()));
                    assert forall|j: int| 0 <= j < lhs.len() implies lhs[j] == rhs[j] by {
                        assert(lhs[j] == kept@[j]@);
                        if j < lhs.len() - 1 {
                            assert(kept@[j] == before_push[j]);
                            assert(str_views(before_push)[j] == before_push[j]@);
                        } else {
                            assert(kept@[j]@ == olds[i as int]);
                        }
                    }
                    assert(lhs =~= rhs);
                }
            } else {
                proof {
                    reveal(Seq::filter);
                    assert(olds[i as int] == p);
                    assert(without_path(olds.take(i + 1), p) == without_path(
                        olds.take(i as int),
                        p,
                    ));
                    assert(str_views(kept@) =~= seq![p] + without_path(
                        olds.take(i + 1),
                        p,
                    ));
                }
            }
            i += 1;
        }
        proof {
            assert(olds.take(olds.len() as int) =~= olds);
        }
        if kept.len() > self.max_recent_files {
            kept.truncate(self.max_recent_files);
            proof {
                assert(str_views(kept@) =~= take_max(
                    seq![p] + without_path(olds, p),
                    old(self).max_recent_files as nat,
                ));
            }
        }
        self.recent_log_files = kept;
    }

    /// Empties the recent-files list.
    pub fn clear_recent_files(&mut self)
        ensures
            final(self).recent_log_files@.len() == 0,
            final(self).rules_directory == old(self).rules_directory,
            final(self).default_logs_directory == old(self).default_logs_directory,
            final(self).max_recent_files == old(self).max_recent_files,
            final(self).ui_preferences == old(self).ui_preferences,
    {
        self.recent_log_files = Vec::new();
    }
}

/// Character-for-character equality of two strings.
fn chars_equal(a: &String, b: &String) -> (r: bool)
    ensures
        r == (a@ == b@),
{
    a.eq(b)
}

} // verus!
