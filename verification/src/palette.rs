//! The palettes above the input: models, efforts, agents, sessions, commands.

use crate::app;
use crate::app::{agent_tree_label, one_line_preview, App, Notice, NoticeKind, SessionChoice, Suggestion};
use crate::config::ModelChoice;
use crate::desk::{Desk, Hint, SessionItem};
use crate::desk;
use crate::text;
use vstd::prelude::*;
use vstd::string::*;

verus! {

fn model_suggestions(models: &Vec<ModelChoice>, query: &str) -> (r: Vec<Suggestion>)
    ensures
        app::hints_of(r@) == desk::model_hints(models@, query@, models@.len() as int),
{
    let mut r: Vec<Suggestion> = Vec::new();
    let mut i: usize = 0;
    proof {
        assert(app::hints_of(r@) =~= Seq::empty());
    }
    while i < models.len()
        invariant
            i <= models@.len(),
            app::hints_of(r@) == desk::model_hints(models@, query@, i as int),
        decreases models@.len() - i,
    {
        let m = &models[i];
        let id = text::to_lowercase(m.registry_id.as_str());
        let name = text::to_lowercase(m.display_name.as_str());
        if query.is_empty() || text::has_text(id.as_str(), query) || text::has_text(
            name.as_str(),
            query,
        ) {
            let thousands = text::decimal_text(m.context_window / 1000);
            let mut detail = text::concat3(m.model.as_str(), " · ", thousands.as_str());
            detail.append("k");
            let ghost before = app::hints_of(r@);
            let s = Suggestion {
                label: text::concat3(m.provider.as_str(), " / ", m.display_name.as_str()),
                detail,
                replacement: text::concat("/model ", m.registry_id.as_str()),
                provider: Some(m.provider.clone()),
                running: false,
            };
            let ghost hint = s@;
            r.push(s);
            proof {
                assert(app::hints_of(r@) =~= before.push(hint));
            }
        }
        i += 1;
    }
    r
}

fn effort_suggestions(efforts: &Vec<String>, model: &str, query: &str) -> (r: Vec<Suggestion>)
    ensures
        app::hints_of(r@) == desk::effort_hints(
            text::texts(efforts@),
            model@,
            query@,
            efforts@.len() as int,
        ),
{
    let mut r: Vec<Suggestion> = Vec::new();
    let mut i: usize = 0;
    proof {
        assert(app::hints_of(r@) =~= Seq::empty());
    }
    while i < efforts.len()
        invariant
            i <= efforts@.len(),
            app::hints_of(r@) == desk::effort_hints(text::texts(efforts@), model@, query@, i as int),
        decreases efforts@.len() - i,
    {
        let lower = text::to_lowercase(efforts[i].as_str());
        proof {
            assert(text::texts(efforts@)[i as int] == efforts@[i as int]@);
        }
        if query.is_empty() || text::has_text(lower.as_str(), query) {
            let ghost before = app::hints_of(r@);
            let s = Suggestion {
                label: efforts[i].clone(),
                detail: text::concat(model, " reasoning effort"),
                replacement: text::concat("/effort ", efforts[i].as_str()),
                provider: None,
                running: false,
            };
            let ghost hint = s@;
            r.push(s);
            proof {
                assert(app::hints_of(r@) =~= before.push(hint));
            }
        }
        i += 1;
    }
    r
}

fn offered_command(i: usize) -> (r: (String, String, String))
    ensures
        (r.0@, r.1@, r.2@) == desk::offered(i as int),
{
    let (name, detail, replacement) = if i == 0 {
        ("compact", "Compact the current context", "/compact")
    } else if i == 1 {
        ("agents", "Switch to an agent conversation", "/agents ")
    } else if i == 2 {
        ("effort", "Choose the reasoning effort", "/effort ")
    } else if i == 3 {
        ("model", "Choose a provider and model", "/model ")
    } else if i == 4 {
        ("new", "Start a new session in this directory", "/new")
    } else if i == 5 {
        ("session", "Load a session from this directory", "/session ")
    } else if i == 6 {
        ("exit", "Close Lam", "/exit")
    } else {
        ("quit", "Close Lam", "/quit")
    };
    (name.to_owned(), detail.to_owned(), replacement.to_owned())
}

fn command_suggestions(query: &str) -> (r: Vec<Suggestion>)
    ensures
        app::hints_of(r@) == desk::command_hints(query@, 8),
{
    let mut r: Vec<Suggestion> = Vec::new();
    let mut i: usize = 0;
    proof {
        assert(app::hints_of(r@) =~= Seq::empty());
    }
    while i < 8
        invariant
            i <= 8,
            app::hints_of(r@) == desk::command_hints(query@, i as int),
        decreases 8 - i,
    {
        let (name, detail, replacement) = offered_command(i);
        if text::has_prefix(name.as_str(), query) {
            let ghost before = app::hints_of(r@);
            let s = Suggestion {
                label: text::concat("/", name.as_str()),
                detail,
                replacement,
                provider: None,
                running: false,
            };
            let ghost hint = s@;
            r.push(s);
            proof {
                assert(app::hints_of(r@) =~= before.push(hint));
            }
        }
        i += 1;
    }
    r
}

fn session_suggestion(s: &SessionChoice) -> (r: Suggestion)
    ensures
        r@ == desk::session_hint(s@),
{
    let id = text::decimal_text(s.id);
    Suggestion {
        label: text::concat("#", id.as_str()),
        detail: match &s.preview {
            Some(preview) => one_line_preview(preview.as_str()),
            None => "No user message yet".to_owned(),
        },
        replacement: text::concat("/session ", id.as_str()),
        provider: None,
        running: false,
    }
}

/// The sessions at the given indices.
pub open spec fn picked(sessions: Seq<SessionChoice>, at: Seq<usize>) -> Seq<SessionItem> {
    at.map_values(|i: usize| sessions[i as int]@)
}

impl App {
    /// Indices of the sessions the open session palette offers, newest first;
    /// `None` when that palette is not open.
    pub fn session_matches(&self) -> (r: Option<Vec<usize>>)
        ensures
            r is Some == self@.session_open(),
            r matches Some(at) ==> {
                &&& picked(self.sessions@, at@) == self@.session_matches()
                &&& forall|k: int| 0 <= k < at@.len() ==> #[trigger] at@[k] < self.sessions@.len()
            },
    {
        if !self.session_palette_open() {
            return None;
        }
        let input = text::trimmed_start(self.input.text.as_str());
        let rest: String = match text::without_prefix(input.as_str(), "/session") {
            Some(rest) => rest,
            None => String::new(),
        };
        proof {
            assert(text::strip_prefix(text::trim_start(self@.input.text), "/session"@) is None
                ==> rest@ =~= Seq::<char>::empty());
        }
        let trimmed = text::trimmed(rest.as_str());
        let bare = text::without_leading(trimmed.as_str(), '#');
        let query = text::to_lowercase(bare.as_str());
        proof {
            assert(query@ == self@.session_query());
        }
        let mut at: Vec<usize> = Vec::new();
        let mut i: usize = 0;
        proof {
            assert(picked(self.sessions@, at@) =~= Seq::empty());
        }
        while i < self.sessions.len()
            invariant
                i <= self.sessions@.len(),
                query@ == self@.session_query(),
                picked(self.sessions@, at@) == desk::sessions_for(
                    self@.sessions,
                    query@,
                    i as int,
                ),
                forall|k: int| 0 <= k < at@.len() ==> #[trigger] at@[k] < self.sessions@.len(),
            decreases self.sessions@.len() - i,
        {
            let s = &self.sessions[i];
            proof {
                assert(self@.sessions[i as int] == s@);
            }
            let id = text::decimal_text(s.id);
            let matched = query.as_str().is_empty() || text::has_text(
                id.as_str(),
                query.as_str(),
            ) || match &s.preview {
                Some(preview) => {
                    let lower = text::to_lowercase(preview.as_str());
                    text::has_text(lower.as_str(), query.as_str())
                },
                None => false,
            };
            if matched {
                let ghost before = picked(self.sessions@, at@);
                at.push(i);
                proof {
                    assert(picked(self.sessions@, at@) =~= before.push(s@));
                }
            }
            i += 1;
        }
        Some(at)
    }

    fn agent_suggestions(&self, query: &str) -> (r: Vec<Suggestion>)
        requires
            self.wf(),
        ensures
            app::hints_of(r@) == self@.agent_hints(
                self@.addresses(),
                query@,
                self@.addresses().len() as int,
            ),
    {
        let list = self.agent_addresses();
        let mut r: Vec<Suggestion> = Vec::new();
        let mut i: usize = 0;
        proof {
            assert(app::hints_of(r@) =~= Seq::empty());
        }
        while i < list.len()
            invariant
                self.wf(),
                i <= list@.len(),
                text::texts(list@) == self@.addresses(),
                app::hints_of(r@) == self@.agent_hints(self@.addresses(), query@, i as int),
            decreases list@.len() - i,
        {
            let address = list[i].as_str();
            proof {
                assert(text::texts(list@)[i as int] == list@[i as int]@);
            }
            let lower = text::to_lowercase(address);
            if query.is_empty() || text::has_text(lower.as_str(), query) {
                let current = text::same(address, self.current_agent.as_str());
                let running = self.agent_is_running(address);
                let ghost before = app::hints_of(r@);
                let s = Suggestion {
                    label: agent_tree_label(address, current, running),
                    detail: self.agent_detail(address),
                    replacement: text::concat("/agents ", address),
                    provider: None,
                    running,
                };
                let ghost hint = s@;
                r.push(s);
                proof {
                    assert(app::hints_of(r@) =~= before.push(hint));
                }
            }
            i += 1;
        }
        r
    }

    /// The rows of the open palette; none when no palette is open.
    pub fn suggestions(&self) -> (r: Vec<Suggestion>)
        requires
            self.wf(),
        ensures
            app::hints_of(r@) == self@.suggestions(),
            r@.len() == self@.suggestions().len(),
    {
        let r = self.palette_rows();
        proof {
            assert(app::hints_of(r@).len() == r@.len());
        }
        r
    }

    fn palette_rows(&self) -> (r: Vec<Suggestion>)
        requires
            self.wf(),
        ensures
            app::hints_of(r@) == self@.suggestions(),
    {
        proof {
            reveal(Desk::suggestions);
        }
        let input = text::trimmed_start(self.input.text.as_str());
        if let Some(rest) = text::without_prefix(input.as_str(), "/model ") {
            let trimmed = text::trimmed(rest.as_str());
            let query = text::to_lowercase(trimmed.as_str());
            return model_suggestions(&self.models, query.as_str());
        }
        if let Some(rest) = text::without_prefix(input.as_str(), "/effort ") {
            let trimmed = text::trimmed(rest.as_str());
            let query = text::to_lowercase(trimmed.as_str());
            let model = &self.models[self.selected_model];
            return effort_suggestions(
                &model.efforts,
                model.display_name.as_str(),
                query.as_str(),
            );
        }
        if self.agents_palette_open() {
            let rest: String = match text::without_prefix(input.as_str(), "/agents") {
                Some(rest) => rest,
                None => String::new(),
            };
            proof {
                lemma_agents_prefix(input@);
            }
            let trimmed = text::trimmed(rest.as_str());
            let query = text::to_lowercase(trimmed.as_str());
            return self.agent_suggestions(query.as_str());
        }
        if let Some(at) = self.session_matches() {
            let mut r: Vec<Suggestion> = Vec::new();
            let mut k: usize = 0;
            let ghost all = self@.session_matches().map_values(
                |s: SessionItem| desk::session_hint(s),
            );
            proof {
                assert(app::hints_of(r@) =~= all.take(0));
                assert(picked(self.sessions@, at@).len() == at@.len());
            }
            while k < at.len()
                invariant
                    k <= at@.len(),
                    picked(self.sessions@, at@) == self@.session_matches(),
                    forall|j: int| 0 <= j < at@.len() ==> #[trigger] at@[j] < self.sessions@.len(),
                    all == self@.session_matches().map_values(
                        |s: SessionItem| desk::session_hint(s),
                    ),
                    all.len() == at@.len(),
                    app::hints_of(r@) == all.take(k as int),
                decreases at@.len() - k,
            {
                let ghost before = app::hints_of(r@);
                let s = session_suggestion(&self.sessions[at[k]]);
                let ghost hint = s@;
                r.push(s);
                proof {
                    assert(picked(self.sessions@, at@)[k as int] == self.sessions@[
                        at@[k as int] as int
                    ]@);
                    assert(all[k as int] == hint);
                    assert(app::hints_of(r@) =~= before.push(hint));
                    assert(all.take(k + 1) =~= all.take(k as int).push(hint));
                }
                k += 1;
            }
            proof {
                assert(all.take(all.len() as int) =~= all);
            }
            return r;
        }
        if !text::has_prefix(input.as_str(), "/") || text::has_char(input.as_str(), ' ') {
            let r: Vec<Suggestion> = Vec::new();
            proof {
                assert(app::hints_of(r@) =~= Seq::empty());
            }
            return r;
        }
        let bare = text::without_leading(input.as_str(), '/');
        let query = text::to_lowercase(bare.as_str());
        command_suggestions(query.as_str())
    }

    /// The advisory line under the palette. Warnings win: an armed deletion or
    /// interruption always displaces the picker's key hint.
    pub fn notice(&self) -> (r: Option<Notice>)
        ensures
            (match r {
                Some(n) => Some((n.text@, n.kind)),
                None => None,
            }) == (if self@.deadline is Some {
                Some(("Press Esc again to stop the current run"@, NoticeKind::Warning))
            } else if self@.notice is Some {
                Some((self@.notice->0, NoticeKind::Warning))
            } else if self@.session_open() {
                Some(("ctrl+d delete the highlighted session"@, NoticeKind::Hint))
            } else {
                None
            }),
    {
        if let Some(warning) = self.interruption_warning() {
            return Some(Notice { text: warning, kind: NoticeKind::Warning });
        }
        if let Some(notice) = &self.session_notice {
            return Some(Notice { text: notice.clone(), kind: NoticeKind::Warning });
        }
        if self.session_palette_open() {
            return Some(
                Notice {
                    text: "ctrl+d delete the highlighted session".to_owned(),
                    kind: NoticeKind::Hint,
                },
            );
        }
        None
    }

    /// Replaces the known sessions and keeps the highlight in the palette.
    pub fn replace_sessions(&mut self, sessions: Vec<SessionChoice>)
        requires
            old(self).wf(),
        ensures
            final(self).wf(),
            final(self)@ == ({
                let d = Desk { sessions: app::sessions_of(sessions@), ..old(self)@ };
                d.highlighted(d.suggestions().len() as int)
            }),
    {
        self.sessions = sessions;
        let count: usize = self.suggestions().len();
        if count == 0 {
            self.suggestion_index = 0;
        } else if self.suggestion_index > count - 1 {
            self.suggestion_index = count - 1;
        }
    }
}

/// The agents palette is open only when its command begins the input.
proof fn lemma_agents_prefix(input: Seq<char>)
    ensures
        desk::invokes(input, "/agents"@, "/agents "@) ==> text::starts_with(input, "/agents"@),
{
    reveal_strlit("/agents");
    reveal_strlit("/agents ");
    if input == "/agents"@ {
        assert(input.take(7) =~= "/agents"@);
    } else if text::starts_with(input, "/agents "@) {
        assert(input.take(7) =~= input.take(8).take(7));
        assert("/agents "@.take(7) =~= "/agents"@);
    }
}

} // verus!
