//! The settings page as a whole.

use vstd::prelude::*;
use vstd::string::*;
use crate::doctor::{checks_in, Check};
use crate::model::{networks, shown_network, text_in, AppState, Config, ConfigView, Place};
use crate::settings_page::parts::{bench_html, bench_table, checkbox, checkbox_html, doctor_html};
use crate::settings_page::parts::{doctor_table, escape_html, escaped, field, field_html};
use crate::settings_page::parts::{health_chip, health_html, network_text, network_words};
use crate::settings_page::parts::{office_row, office_row_html, office_rows, office_rows_html};
use crate::settings_page::parts::{route_text, route_words, tunnel_html, tunnel_section};
use crate::settings_page::parts::{BenchReport, BENCH_URL};
use crate::text::{decimal, decimal_text};
use crate::tunnel::TunnelSnapshot;

verus! {

/// A line to show above the form.
#[derive(Debug, PartialEq, Eq)]
pub struct Note {
    pub bad: bool,
    pub text: String,
}

/// What to show after an action.
#[derive(Debug, PartialEq, Eq)]
pub struct Outcome {
    pub notes: Vec<Note>,
    pub bench: Option<BenchReport>,
    pub doctor: Option<Vec<Check>>,
}

#[verifier::ext_equal]
pub ghost struct NoteView {
    pub bad: bool,
    pub text: Seq<char>,
}

impl View for Note {
    type V = NoteView;

    open spec fn view(&self) -> NoteView {
        NoteView { bad: self.bad, text: self.text@ }
    }
}

/// The notes in a list.
pub open spec fn notes_in(v: Seq<Note>) -> Seq<NoteView> {
    v.map_values(|n: Note| n@)
}

/// All the styling of the page. The theme follows the system, and a state is
/// told by shape as well as by colour.
pub const STYLE: &'static str = r#"
:root{
  --bg:#f3f4f6;--bg-elevated:#ffffff;--fg:#1a1d21;--fg-muted:#5b6169;
  --border:#d9dce1;--accent:#2f5fd6;--focus:#2f5fd6;--focus-ring:rgba(47,95,214,.28);
  --good-fg:#146c37;--good-bg:#e3f5e9;--bad-fg:#a3241c;--bad-bg:#fbe8e6;
  --warn-fg:#8a5a00;--warn-bg:#fbf0d9;
  --sans:'Segoe UI Variable Text','Segoe UI',system-ui,-apple-system,sans-serif;
  --mono:'Cascadia Mono',Consolas,'Courier New',monospace;--radius:10px;
}
/* Тёмная тема следует системной настройке; собственного переключателя нет
   намеренно — на странице без скрипта переключать было бы нечем. */
@media (prefers-color-scheme:dark){:root{
  --bg:#15171b;--bg-elevated:#1e2126;--fg:#e8eaed;--fg-muted:#9aa0a8;
  --border:#33373e;--accent:#7aa5ff;--focus:#7aa5ff;--focus-ring:rgba(122,165,255,.35);
  --good-fg:#5fd88b;--good-bg:#173225;--bad-fg:#ff9086;--bad-bg:#3a201f;
  --warn-fg:#f0c14b;--warn-bg:#3a2f12;
}}
*{box-sizing:border-box}
body{font:15px/1.55 var(--sans);margin:0;padding:2.25rem 1rem 4rem;max-width:44rem;
  margin-inline:auto;background:var(--bg);color:var(--fg)}
h1{font-size:1.55rem;font-weight:650;letter-spacing:-.01em;margin:.1rem 0 1.4rem}
h2{font-size:1.02rem;font-weight:650;margin:0 0 .8rem;color:var(--fg)}
section.card{background:var(--bg-elevated);border:1px solid var(--border);
  border-radius:var(--radius);padding:1.15rem 1.3rem;margin-bottom:1rem;
  box-shadow:0 1px 2px rgba(0,0,0,.05)}
label{display:block;margin-top:.9rem;font-weight:500}
input[type=text],textarea{width:100%;font:inherit;color:var(--fg);background:var(--bg);
  border:1px solid var(--border);border-radius:8px;padding:.5rem .65rem;margin-top:.35rem;
  transition:border-color .15s,box-shadow .15s}
textarea{min-height:5rem;resize:vertical}
input[type=text]:focus-visible,textarea:focus-visible{
  outline:none;border-color:var(--focus);box-shadow:0 0 0 3px var(--focus-ring)}
table{border-collapse:collapse;width:100%;font-size:.92rem}
th,td{text-align:left;padding:.4rem .5rem;border-bottom:1px solid var(--border)}
th{font-weight:600;color:var(--fg-muted);font-size:.78rem;text-transform:uppercase;
  letter-spacing:.03em}
table input[type=text]{margin-top:0}
.table-wrap{overflow-x:auto;margin-top:.5rem}
/* Нативный чекбокс перерисован в переключатель чистым CSS — `appearance:none`
   плюс `::before` для ползунка; никакого скрипта для этого не нужно. */
label:has(>input[type=checkbox]){display:flex;align-items:center;gap:.65rem;
  padding:.45rem 0;cursor:pointer;font-weight:500}
input[type=checkbox]{appearance:none;-webkit-appearance:none;width:2.15rem;height:1.2rem;
  border-radius:999px;background:var(--border);position:relative;flex:none;margin:0;
  cursor:pointer;transition:background-color .15s}
input[type=checkbox]::before{content:"";position:absolute;top:2px;left:2px;width:1rem;
  height:1rem;border-radius:50%;background:var(--bg-elevated);
  box-shadow:0 1px 2px rgba(0,0,0,.3);transition:transform .15s}
input[type=checkbox]:checked{background:var(--accent)}
input[type=checkbox]:checked::before{transform:translateX(.95rem)}
input[type=checkbox]:disabled{opacity:.5;cursor:not-allowed}
input[type=checkbox]:focus-visible{outline:2px solid var(--focus);outline-offset:2px}
button{font:inherit;font-weight:600;border:1px solid var(--accent);border-radius:8px;
  padding:.55rem 1.1rem;min-height:2.5rem;cursor:pointer;background:var(--accent);
  color:#fff;transition:filter .15s,transform .05s}
button:hover{filter:brightness(1.08)}
button:active{transform:translateY(1px)}
button:focus-visible{outline:2px solid var(--focus);outline-offset:3px}
/* Кнопка «Сохранить» — единственное основное действие формы, поэтому
   единственная сплошная; сеть-в-офис и кнопки разделов ниже — второстепенные
   действия, поэтому контурные (тот же язык, что у переключателя). */
button[value=office]{background:transparent;color:var(--accent)}
button[value=office]:hover{background:var(--accent);color:#fff}
form.action button{background:transparent;color:var(--accent)}
form.action button:hover{background:var(--accent);color:#fff}
/* Установка службы — единственный путь к UAC во всём приложении (см.
   «Права администратора») — помечена отдельным цветом, чтобы
   не потеряться среди обычных кнопок. */
form.action button[value=install_service]{color:var(--warn-fg);border-color:var(--warn-fg)}
form.action button[value=install_service]:hover{background:var(--warn-fg);color:#fff}
form.action{display:inline-block;margin:0 .5rem .5rem 0}
.actions{display:flex;flex-wrap:wrap;gap:.6rem;margin-top:1.2rem}
.now{background:var(--bg);border:1px dashed var(--border);border-radius:8px;
  padding:.75rem .9rem;font-size:.95rem;line-height:1.6}
.now b{font-variant-numeric:tabular-nums}
.hint{color:var(--fg-muted);font-size:.88rem;margin:.4rem 0}
.warn{color:var(--warn-fg);font-size:.88rem;margin:.5rem 0;padding:.5rem .7rem;
  background:var(--warn-bg);border-radius:8px}
.note{margin:.5rem 0;padding:.6rem .8rem;border-radius:8px;font-size:.92rem;
  display:flex;align-items:flex-start;gap:.55rem}
.note::before{flex:none;font-weight:700}
.note.good{background:var(--good-bg);color:var(--good-fg)}
.note.good::before{content:"✓"}
.note.bad{background:var(--bad-bg);color:var(--bad-fg)}
.note.bad::before{content:"✕"}
/* Значок статуса апстрима — форма плюс цвет, не только цвет (см. докблок
   константы). */
.chip{display:inline-flex;align-items:center;gap:.3rem;font-size:.82rem;font-weight:600;
  padding:.15rem .55rem;border-radius:999px}
.chip::before{font-weight:700}
.chip.status-up{background:var(--good-bg);color:var(--good-fg)}
.chip.status-up::before{content:"✓"}
.chip.status-down{background:var(--bad-bg);color:var(--bad-fg)}
.chip.status-down::before{content:"✕"}
.chip.status-unknown{background:var(--warn-bg);color:var(--warn-fg)}
.chip.status-unknown::before{content:"…"}
.chip.status-unset{background:var(--border);color:var(--fg-muted)}
.chip.status-unset::before{content:"—"}
.checks{list-style:none;margin:.75rem 0 0;padding:0}
.check{display:flex;gap:.65rem;align-items:flex-start;padding:.65rem .8rem;
  border:1px solid var(--border);border-radius:8px;margin-bottom:.5rem;background:var(--bg)}
.check::before{flex:none;width:1.3rem;height:1.3rem;border-radius:50%;display:flex;
  align-items:center;justify-content:center;font-size:.78rem;font-weight:700;color:#fff}
.check.ok::before{content:"✓";background:var(--good-fg)}
.check.warn::before{content:"!";background:var(--warn-fg)}
.check.fail::before{content:"✕";background:var(--bad-fg)}
.check-body{flex:1;min-width:0}
.check-head{display:flex;justify-content:space-between;gap:.6rem;flex-wrap:wrap}
.check-title{font-weight:600}
.check-status{font-size:.72rem;font-weight:700;text-transform:uppercase;
  letter-spacing:.03em;color:var(--fg-muted)}
.check-detail{margin-top:.3rem;font-family:var(--mono);font-size:.82rem;
  color:var(--fg-muted);white-space:pre-wrap;word-break:break-word}
.bench-results{list-style:none;margin:.75rem 0 0;padding:0}
.bench-row{display:grid;grid-template-columns:1fr auto auto;gap:.4rem 1rem;
  align-items:center;padding:.55rem .8rem;border:1px solid var(--border);border-radius:8px;
  margin-bottom:.4rem;background:var(--bg)}
.bench-row.winner{border-color:var(--good-fg)}
.bench-row.failed{border-color:var(--bad-fg)}
.bench-label{font-weight:600}
.bench-speed{font-variant-numeric:tabular-nums;color:var(--fg-muted)}
.ok{color:var(--good-fg);font-weight:600}
.fail{color:var(--bad-fg);font-weight:600}
/* Страница открывается в том окне браузера, какое случится — узкое не
   исключение. */
@media (max-width:480px){
  body{padding:1.4rem .75rem 3rem}
  section.card{padding:.9rem 1rem}
  .bench-row{grid-template-columns:1fr}
  .check-head{flex-direction:column;gap:.15rem}
}
"#;

pub const UPSTREAMS_HINT: &'static str = "<p class=\"hint\">Применяется сразу: маршрут пересчитывается тем же \
         путём, что и при переключении режима в трее, а установленные \
         соединения при этом не рвутся.</p>\n";

pub const PORT_HINT: &'static str = "<p class=\"warn\">Порт применяется только при запуске: после \
             изменения перезапустите ProxyPilot. На лету он не меняется \
             намеренно — перепривязка оборвала бы все установленные \
             соединения.</p>\n";

pub const PORT_PENDING: &'static str = " — \
             перезапустите ProxyPilot, чтобы новый порт вступил в силу. \
             Перепривязать слушатель на лету значило бы оборвать все \
             установленные соединения.</p>\n";

pub const NETWORKS_HINT: &'static str = "<p class=\"hint\">Применяется сразу. Решение принимается по GUID: имя \
         сети человек может переименовать в любой момент. Чтобы убрать сеть — \
         очистите её GUID и сохраните.</p>\n";

pub const AUTOMATION_HINT: &'static str = "Выключено по умолчанию (спека 8.5) — туннель поднимается руками, пока \
         вы не включите это сами. Пока только сохраняет намерение: сам подъём и \
         опускание по смене сети этот тумблер ещё не выполняет — управляйте \
         туннелем кнопками ниже.";

pub const BYPASS_LABEL: &'static str = "<label for=\"no_proxy\">Адреса и подсети, по одному в строке или через \
         запятую</label>\n<textarea id=\"no_proxy\" name=\"no_proxy\" rows=\"4\">";

pub const BYPASS_HINT: &'static str = "<p class=\"warn\">Список применяется при запуске: после изменения \
         перезапустите ProxyPilot.</p>\n";

pub const SYSTEM_HINT: &'static str = "Применяется при запуске: после изменения перезапустите ProxyPilot. \
         Выключите, если прокси задаёт групповая политика или вы ходите через \
         мост только явным -x.";

pub const BENCH_HINT: &'static str = "<p class=\"hint\">Один поток и короткий файл: цифры сравнивают \
         маршруты между собой, а не измеряют канал. Качается ";

pub const BENCH_BUTTON: &'static str = "<form method=\"post\" action=\"\" class=\"action\"><button type=\"submit\" \
         name=\"action\" value=\"bench\">Замерить</button></form>\n";

pub const DOCTOR_BUTTON: &'static str = "<form method=\"post\" action=\"\" class=\"action\"><button type=\"submit\" \
         name=\"action\" value=\"doctor\">Проверить</button></form>\n";

/// One note.
pub open spec fn note_html(note: NoteView) -> Seq<char> {
    "<p class=\"note "@ + (if note.bad {
        "bad"@
    } else {
        "good"@
    }) + "\">"@ + escaped(note.text) + "</p>\n"@
}

pub open spec fn notes_html(notes: Seq<NoteView>) -> Seq<char>
    decreases notes.len(),
{
    if notes.len() == 0 {
        Seq::empty()
    } else {
        notes_html(notes.drop_last()) + note_html(notes.last())
    }
}

fn note_line(note: &Note) -> (out: String)
    ensures
        out@ == note_html(note@),
{
    let mut out = "<p class=\"note ".to_owned();
    out.append(if note.bad { "bad" } else { "good" });
    out.append("\">");
    out.append(escape_html(note.text.as_str()).as_str());
    out.append("</p>\n");
    out
}

fn note_lines(notes: &Vec<Note>) -> (out: String)
    ensures
        out@ == notes_html(notes_in(notes@)),
{
    let ghost all = notes_in(notes@);
    let mut out = String::new();
    let mut i: usize = 0;
    assert(all.take(0) =~= Seq::empty());
    while i < notes.len()
        invariant
            i <= notes@.len(),
            all == notes_in(notes@),
            out@ == notes_html(all.take(i as int)),
        decreases notes.len() - i,
    {
        assert(all.take(i + 1).drop_last() =~= all.take(i as int));
        assert(all.take(i + 1).last() == notes@[i as int]@);
        out.append(note_line(&notes[i]).as_str());
        i += 1;
    }
    assert(all.take(i as int) =~= all);
    out
}

/// The notes of an outcome, if there is one.
pub open spec fn outcome_notes_html(outcome: Option<&Outcome>) -> Seq<char> {
    match outcome {
        Some(o) => notes_html(notes_in(o.notes@)),
        None => Seq::empty(),
    }
}

fn outcome_notes(outcome: Option<&Outcome>) -> (out: String)
    ensures
        out@ == outcome_notes_html(outcome),
{
    match outcome {
        Some(o) => note_lines(&o.notes),
        None => String::new(),
    }
}

/// What is happening now, and what the last action did.
pub open spec fn now_html(app: AppState, outcome: Option<&Outcome>) -> Seq<char> {
    "<h1>ProxyPilot</h1>\n<section class=\"card\">\n<p class=\"now\">Мост слушает <b>127.0.0.1:"@
        + decimal(app.port as nat)
        + "</b> · "@
        + escaped(route_words(app))
        + "<br>"@
        + escaped(network_words(app))
        + "</p>\n"@
        + outcome_notes_html(outcome)
        + "</section>\n"@
}

fn now_card(app: &AppState, outcome: Option<&Outcome>) -> (out: String)
    ensures
        out@ == now_html(*app, outcome),
{
    let mut out = "<h1>ProxyPilot</h1>\n<section class=\"card\">\n<p class=\"now\">Мост слушает <b>127.0.0.1:".to_owned();
    out.append(decimal_text(app.port as u64).as_str());
    out.append("</b> · ");
    out.append(escape_html(route_text(app).as_str()).as_str());
    out.append("<br>");
    out.append(escape_html(network_text(app).as_str()).as_str());
    out.append("</p>\n");
    out.append(outcome_notes(outcome).as_str());
    out.append("</section>\n");
    out
}

/// The text in an option, or nothing.
pub open spec fn text_or_empty(o: Option<Seq<char>>) -> Seq<char> {
    match o {
        Some(s) => s,
        None => ""@,
    }
}

fn value_of(o: &Option<String>) -> (out: &str)
    ensures
        out@ == text_or_empty(text_in(*o)),
{
    match o {
        Some(s) => s.as_str(),
        None => "",
    }
}

/// The upstreams, each with what is known of it.
pub open spec fn upstreams_html(app: AppState, cfg: ConfigView) -> Seq<char> {
    "<section class=\"card\" aria-labelledby=\"upstreams\">\n<h2 id=\"upstreams\">Апстримы</h2>\n"@
        + UPSTREAMS_HINT@
        + field_html(
        "socks_upstream"@,
        "SOCKS5"@,
        text_or_empty(cfg.socks_upstream),
        health_html(cfg.socks_upstream, app.health.socks),
    )
        + field_html(
        "http_upstream"@,
        "HTTP-прокси"@,
        text_or_empty(cfg.http_upstream),
        health_html(cfg.http_upstream, app.health.http),
    )
        + "</section>\n"@
}

fn upstreams_card(app: &AppState, cfg: &Config) -> (out: String)
    ensures
        out@ == upstreams_html(*app, cfg@),
{
    let mut out = "<section class=\"card\" aria-labelledby=\"upstreams\">\n<h2 id=\"upstreams\">Апстримы</h2>\n".to_owned();
    out.append(UPSTREAMS_HINT);
    out.append(field(
        "socks_upstream",
        "SOCKS5",
        value_of(&cfg.socks_upstream),
        health_chip(&cfg.socks_upstream, app.health.socks).as_str(),
    ).as_str());
    out.append(field(
        "http_upstream",
        "HTTP-прокси",
        value_of(&cfg.http_upstream),
        health_chip(&cfg.http_upstream, app.health.http).as_str(),
    ).as_str());
    out.append("</section>\n");
    out
}

/// That a new port takes effect only at the next start is said right below the
/// field.
pub open spec fn port_note_html(saved: u16, bound: u16) -> Seq<char> {
    if saved == bound {
        PORT_HINT@
    } else {
        "<p class=\"warn\">Сохранено "@ + decimal(saved as nat) + ", но мост слушает "@ + decimal(
            bound as nat,
        ) + PORT_PENDING@
    }
}

fn port_note(saved: u16, bound: u16) -> (out: String)
    ensures
        out@ == port_note_html(saved, bound),
{
    if saved == bound {
        return PORT_HINT.to_owned();
    }
    let mut out = "<p class=\"warn\">Сохранено ".to_owned();
    out.append(decimal_text(saved as u64).as_str());
    out.append(", но мост слушает ");
    out.append(decimal_text(bound as u64).as_str());
    out.append(PORT_PENDING);
    out
}

/// The port of the bridge.
pub open spec fn port_html(saved: u16, bound: u16) -> Seq<char> {
    "<section class=\"card\" aria-labelledby=\"port\">\n<h2 id=\"port\">Порт моста</h2>\n"@
        + field_html("bridge_port"@, "Порт"@, decimal(saved as nat), ""@)
        + port_note_html(saved, bound)
        + "</section>\n"@
}

fn port_card(saved: u16, bound: u16) -> (out: String)
    ensures
        out@ == port_html(saved, bound),
{
    let mut out = "<section class=\"card\" aria-labelledby=\"port\">\n<h2 id=\"port\">Порт моста</h2>\n".to_owned();
    out.append(field("bridge_port", "Порт", decimal_text(saved as u64).as_str(), "").as_str());
    out.append(port_note(saved, bound).as_str());
    out.append("</section>\n");
    out
}

/// The office networks, with an empty row to add one.
pub open spec fn networks_html(cfg: ConfigView) -> Seq<char> {
    "<section class=\"card\" aria-labelledby=\"networks\">\n<h2 id=\"networks\">Офисные сети</h2>\n"@
        + NETWORKS_HINT@
        + "<div class=\"table-wrap\"><table>\n<tr><th>GUID</th><th>Имя</th></tr>\n"@
        + office_rows_html(cfg.office_networks)
        + office_row_html(""@, ""@)
        + "</table></div>\n</section>\n"@
}

fn networks_card(cfg: &Config) -> (out: String)
    ensures
        out@ == networks_html(cfg@),
{
    let mut out = "<section class=\"card\" aria-labelledby=\"networks\">\n<h2 id=\"networks\">Офисные сети</h2>\n".to_owned();
    out.append(NETWORKS_HINT);
    out.append("<div class=\"table-wrap\"><table>\n<tr><th>GUID</th><th>Имя</th></tr>\n");
    out.append(office_rows(&cfg.office_networks).as_str());
    out.append(office_row("", "").as_str());
    out.append("</table></div>\n</section>\n");
    out
}

/// The switch of the tunnel's automation.
pub open spec fn automation_html(cfg: ConfigView) -> Seq<char> {
    "<section class=\"card\" aria-labelledby=\"tunnel-automation\">\n<h2 id=\"tunnel-automation\">Автоматика туннеля</h2>\n"@
        + checkbox_html(
        "automate_tunnel"@,
        "Поднимать туннель автоматически вне офиса"@,
        cfg.automate_tunnel,
        false,
        AUTOMATION_HINT@,
    )
        + "</section>\n"@
}

fn automation_card(cfg: &Config) -> (out: String)
    ensures
        out@ == automation_html(cfg@),
{
    let mut out = "<section class=\"card\" aria-labelledby=\"tunnel-automation\">\n<h2 id=\"tunnel-automation\">Автоматика туннеля</h2>\n".to_owned();
    out.append(checkbox(
        "automate_tunnel",
        "Поднимать туннель автоматически вне офиса",
        cfg.automate_tunnel,
        false,
        AUTOMATION_HINT,
    ).as_str());
    out.append("</section>\n");
    out
}

/// What goes past the proxy.
pub open spec fn bypass_html(cfg: ConfigView) -> Seq<char> {
    "<section class=\"card\" aria-labelledby=\"bypass\">\n<h2 id=\"bypass\">Мимо прокси</h2>\n"@
        + BYPASS_LABEL@
        + escaped(cfg.no_proxy)
        + "</textarea>\n"@
        + BYPASS_HINT@
        + "</section>\n"@
}

fn bypass_card(cfg: &Config) -> (out: String)
    ensures
        out@ == bypass_html(cfg@),
{
    let mut out = "<section class=\"card\" aria-labelledby=\"bypass\">\n<h2 id=\"bypass\">Мимо прокси</h2>\n".to_owned();
    out.append(BYPASS_LABEL);
    out.append(escape_html(cfg.no_proxy.as_str()).as_str());
    out.append("</textarea>\n");
    out.append(BYPASS_HINT);
    out.append("</section>\n");
    out
}

/// The switch of the autostart. Where its state is not known it is off,
/// disabled and says why.
pub open spec fn autostart_html(enabled: Result<bool, String>) -> Seq<char> {
    let (on, why) = match enabled {
        Ok(on) => (on, Seq::empty()),
        Err(why) => (false, why@),
    };
    checkbox_html("autostart"@, "Запускать вместе с Windows"@, on, why.len() > 0, why)
}

fn autostart_switch(enabled: &Result<bool, String>) -> (out: String)
    ensures
        out@ == autostart_html(*enabled),
{
    match enabled {
        Ok(on) => {
            let nothing = String::new();
            checkbox("autostart", "Запускать вместе с Windows", *on, false, nothing.as_str())
        },
        Err(why) => checkbox(
            "autostart",
            "Запускать вместе с Windows",
            false,
            !why.as_str().is_empty(),
            why.as_str(),
        ),
    }
}

/// What concerns the system.
pub open spec fn system_html(cfg: ConfigView, autostart: Result<bool, String>) -> Seq<char> {
    "<section class=\"card\" aria-labelledby=\"system\">\n<h2 id=\"system\">Система</h2>\n"@
        + checkbox_html(
        "manage_system_proxy"@,
        "Управлять системными настройками прокси Windows"@,
        cfg.manage_system_proxy,
        false,
        SYSTEM_HINT@,
    )
        + autostart_html(autostart)
        + "</section>\n"@
}

fn system_card(cfg: &Config, autostart: &Result<bool, String>) -> (out: String)
    ensures
        out@ == system_html(cfg@, *autostart),
{
    let mut out = "<section class=\"card\" aria-labelledby=\"system\">\n<h2 id=\"system\">Система</h2>\n".to_owned();
    out.append(checkbox(
        "manage_system_proxy",
        "Управлять системными настройками прокси Windows",
        cfg.manage_system_proxy,
        false,
        SYSTEM_HINT,
    ).as_str());
    out.append(autostart_switch(autostart).as_str());
    out.append("</section>\n");
    out
}

/// The button that makes the current network an office network. It is there
/// only when the network is known.
pub open spec fn office_button_html(place: Place) -> Seq<char> {
    if place.network is Some {
        "<button type=\"submit\" name=\"action\" value=\"office\">Эта сеть — офис: "@ + escaped(
            shown_network(place)->0,
        ) + "</button>"@
    } else {
        Seq::empty()
    }
}

fn office_button(place: &Place) -> (out: String)
    ensures
        out@ == office_button_html(*place),
{
    if place.network.is_none() {
        return String::new();
    }
    match place.shown_network() {
        Some(name) => {
            let mut out =
                "<button type=\"submit\" name=\"action\" value=\"office\">Эта сеть — офис: ".to_owned();
            out.append(escape_html(name).as_str());
            out.append("</button>");
            out
        },
        None => String::new(),
    }
}

/// The form with all that it saves. Each section says when it takes effect.
pub open spec fn form_html(app: AppState, cfg: ConfigView, bound_port: u16, autostart: Result<bool, String>) -> Seq<char> {
    "<form method=\"post\" action=\"\">\n"@
        + upstreams_html(app, cfg)
        + port_html(cfg.bridge_port, bound_port)
        + networks_html(cfg)
        + automation_html(cfg)
        + bypass_html(cfg)
        + system_html(cfg, autostart)
        + "<div class=\"actions\"><button type=\"submit\" name=\"action\" value=\"save\">Сохранить</button>"@
        + office_button_html(app.place)
        + "</div>\n</form>\n"@
}

fn form_part(app: &AppState, cfg: &Config, bound_port: u16, autostart: &Result<bool, String>) -> (out: String)
    ensures
        out@ == form_html(*app, cfg@, bound_port, *autostart),
{
    let mut out = "<form method=\"post\" action=\"\">\n".to_owned();
    out.append(upstreams_card(app, cfg).as_str());
    out.append(port_card(cfg.bridge_port, bound_port).as_str());
    out.append(networks_card(cfg).as_str());
    out.append(automation_card(cfg).as_str());
    out.append(bypass_card(cfg).as_str());
    out.append(system_card(cfg, autostart).as_str());
    out.append("<div class=\"actions\"><button type=\"submit\" name=\"action\" value=\"save\">Сохранить</button>");
    out.append(office_button(&app.place).as_str());
    out.append("</div>\n</form>\n");
    out
}

/// What a measurement found, if there was one.
pub open spec fn outcome_bench_html(outcome: Option<&Outcome>) -> Seq<char> {
    match outcome {
        Some(o) => match o.bench {
            Some(report) => bench_html(report),
            None => Seq::empty(),
        },
        None => Seq::empty(),
    }
}

fn outcome_bench(outcome: Option<&Outcome>) -> (out: String)
    ensures
        out@ == outcome_bench_html(outcome),
{
    match outcome {
        Some(o) => match &o.bench {
            Some(report) => bench_table(report),
            None => String::new(),
        },
        None => String::new(),
    }
}

/// What the diagnostics found, if they ran.
pub open spec fn outcome_doctor_html(outcome: Option<&Outcome>) -> Seq<char> {
    match outcome {
        Some(o) => match o.doctor {
            Some(checks) => doctor_html(checks_in(checks@)),
            None => Seq::empty(),
        },
        None => Seq::empty(),
    }
}

fn outcome_doctor(outcome: Option<&Outcome>) -> (out: String)
    ensures
        out@ == outcome_doctor_html(outcome),
{
    match outcome {
        Some(o) => match &o.doctor {
            Some(checks) => doctor_table(checks),
            None => String::new(),
        },
        None => String::new(),
    }
}

/// What stands below the form, each button in a form of its own.
pub open spec fn actions_html(cfg: ConfigView, tunnel: TunnelSnapshot, outcome: Option<&Outcome>) -> Seq<char> {
    "<section class=\"card\" aria-labelledby=\"tunnel\">\n"@
        + tunnel_html(cfg.office_subnets, tunnel)
        + "</section>\n<section class=\"card\" aria-labelledby=\"bench\">\n<h2 id=\"bench\">Замер скорости</h2>\n"@
        + BENCH_HINT@
        + escaped(BENCH_URL@)
        + ".</p>\n"@
        + BENCH_BUTTON@
        + outcome_bench_html(outcome)
        + "</section>\n<section class=\"card\" aria-labelledby=\"doctor\">\n<h2 id=\"doctor\">Диагностика</h2>\n"@
        + DOCTOR_BUTTON@
        + outcome_doctor_html(outcome)
        + "</section>\n"@
}

fn actions_part(cfg: &Config, tunnel: &TunnelSnapshot, outcome: Option<&Outcome>) -> (out: String)
    ensures
        out@ == actions_html(cfg@, *tunnel, outcome),
{
    let mut out = "<section class=\"card\" aria-labelledby=\"tunnel\">\n".to_owned();
    out.append(tunnel_section(&cfg.office_subnets, tunnel).as_str());
    out.append("</section>\n<section class=\"card\" aria-labelledby=\"bench\">\n<h2 id=\"bench\">Замер скорости</h2>\n");
    out.append(BENCH_HINT);
    out.append(escape_html(BENCH_URL).as_str());
    out.append(".</p>\n");
    out.append(BENCH_BUTTON);
    out.append(outcome_bench(outcome).as_str());
    out.append("</section>\n<section class=\"card\" aria-labelledby=\"doctor\">\n<h2 id=\"doctor\">Диагностика</h2>\n");
    out.append(DOCTOR_BUTTON);
    out.append(outcome_doctor(outcome).as_str());
    out.append("</section>\n");
    out
}

/// The whole page.
pub open spec fn page_html(
    app: AppState,
    cfg: ConfigView,
    bound_port: u16,
    autostart: Result<bool, String>,
    tunnel: TunnelSnapshot,
    outcome: Option<&Outcome>,
) -> Seq<char> {
    "<!doctype html>\n<html lang=\"ru\"><head><meta charset=\"utf-8\">\n<meta name=\"viewport\" content=\"width=device-width, initial-scale=1\">\n<title>ProxyPilot — настройки</title>\n<style>"@
        + STYLE@
        + "</style></head>\n<body>\n"@
        + now_html(app, outcome)
        + form_html(app, cfg, bound_port, autostart)
        + actions_html(cfg, tunnel, outcome)
        + "</body></html>\n"@
}

/// The whole page. Nothing of it comes from the disk.
///
/// `autostart` is whether the program starts with the system, or why that is not
/// known; `tunnel` is what is known of the tunnel.
pub fn page(
    app: &AppState,
    cfg: &Config,
    bound_port: u16,
    autostart: &Result<bool, String>,
    tunnel: &TunnelSnapshot,
    outcome: Option<&Outcome>,
) -> (out: String)
    ensures
        out@ == page_html(*app, cfg@, bound_port, *autostart, *tunnel, outcome),
{
    let mut out = "<!doctype html>\n<html lang=\"ru\"><head><meta charset=\"utf-8\">\n<meta name=\"viewport\" content=\"width=device-width, initial-scale=1\">\n<title>ProxyPilot — настройки</title>\n<style>".to_owned();
    out.append(STYLE);
    out.append("</style></head>\n<body>\n");
    out.append(now_card(app, outcome).as_str());
    out.append(form_part(app, cfg, bound_port, autostart).as_str());
    out.append(actions_part(cfg, tunnel, outcome).as_str());
    out.append("</body></html>\n");
    out
}

} // verus!
