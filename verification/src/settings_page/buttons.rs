//! The buttons of the section on the tunnel, and the line about the tunnel in the
//! menu.

use vstd::prelude::*;
use crate::settings_page::parts::{action_form_html, entity, escaped, escaped_text_is_inert};
use crate::settings_page::parts::{offers_lower, offers_raise};
use crate::settings_page::parts::{lemma_escaped_from_the_left, subnets_html, tunnel_html};
use crate::settings_page::parts::{tunnel_state_html, tunnel_words_html};
use crate::settings_page::parts::{TUNNEL_DNS, TUNNEL_MISSING, TUNNEL_NAME_NOTE, TUNNEL_NO_SUBNETS};
use crate::settings_page::parts::{TUNNEL_OCCUPIED, TUNNEL_PRIVILEGES, TUNNEL_UNCHECKED};
use crate::settings_page::parts::{TUNNEL_UNCHECKED_END, TUNNEL_UNKNOWN, TUNNEL_UNKNOWN_END};
use crate::model::texts;
use crate::settings_page::parts::tunnel_section;
use crate::text::joined;
use crate::tray::tunnel_line;
use crate::tunnel::{tunnel_status, TunnelSnapshot, TunnelStatus, TUNNEL_PROFILE_NAME};

verus! {

/// The part stands somewhere in the text.
pub open spec fn shows(text: Seq<char>, part: Seq<char>) -> bool {
    exists|i: int|
        0 <= i && i + part.len() <= text.len() && #[trigger] text.subrange(i, i + part.len())
            == part
}

/// What marks the button of an action in the markup.
pub open spec fn button_mark(action: Seq<char>) -> Seq<char> {
    "value=\""@ + action + "\""@
}

// ---------------------------------------------------------------------------
// Texts in which no button of the tunnel begins
// ---------------------------------------------------------------------------

/// No quote in the text stands before `c`, and the text does not end in one.
spec fn free(s: Seq<char>, c: char) -> bool {
    forall|k: int|
        0 <= k < s.len() && #[trigger] s[k] == '"' ==> k + 1 < s.len() && s[k + 1] != c
}

/// Neither of the two buttons that raise and lower the tunnel begins in the
/// text.
spec fn is_calm(s: Seq<char>) -> bool {
    free(s, 'l') && free(s, 'r')
}

/// The same between two positions, by halves.
spec fn calm(s: Seq<char>, from: int, to: int) -> bool
    decreases to - from,
{
    if to - from <= 1 {
        from >= to || s[from] != '"' || (from + 1 < s.len() && s[from + 1] != 'l' && s[from + 1]
            != 'r')
    } else {
        calm(s, from, (from + to) / 2) && calm(s, (from + to) / 2, to)
    }
}

proof fn lemma_calm_between(s: Seq<char>, from: int, to: int, k: int)
    requires
        calm(s, from, to),
        from <= k < to,
    ensures
        s[k] == '"' ==> k + 1 < s.len() && s[k + 1] != 'l' && s[k + 1] != 'r',
    decreases to - from,
{
    if to - from > 1 {
        let middle = (from + to) / 2;
        if k < middle {
            lemma_calm_between(s, from, middle, k);
        } else {
            lemma_calm_between(s, middle, to, k);
        }
    }
}

proof fn lemma_calm(s: Seq<char>)
    requires
        calm(s, 0, s.len() as int),
    ensures
        is_calm(s),
{
    assert forall|k: int| 0 <= k < s.len() && #[trigger] s[k] == '"' implies k + 1 < s.len()
        && s[k + 1] != 'l' && s[k + 1] != 'r' by {
        lemma_calm_between(s, 0, s.len() as int, k);
    }
}

proof fn lemma_free_joined(a: Seq<char>, b: Seq<char>, c: char)
    requires
        free(a, c),
        free(b, c),
    ensures
        free(a + b, c),
{
    let s = a + b;
    assert forall|k: int| 0 <= k < s.len() && #[trigger] s[k] == '"' implies k + 1 < s.len() && s[k
        + 1] != c by {
        if k < a.len() {
            assert(a[k] == '"');
        } else {
            assert(b[k - a.len()] == '"');
        }
    }
}

proof fn lemma_calm_joined(a: Seq<char>, b: Seq<char>)
    requires
        is_calm(a),
        is_calm(b),
    ensures
        is_calm(a + b),
{
    lemma_free_joined(a, b, 'l');
    lemma_free_joined(a, b, 'r');
}

proof fn lemma_escaped_is_calm(s: Seq<char>)
    ensures
        is_calm(escaped(s)),
{
    escaped_text_is_inert(s);
}

proof fn lemma_missing_is_calm()
    ensures
        is_calm(TUNNEL_MISSING@),
{
    assert(calm(TUNNEL_MISSING@, 0, TUNNEL_MISSING@.len() as int)) by {
        reveal_strlit(
            "<p class=\"hint\">OpenVPN не найден на этой машине — раздел \
             недоступен. Установите OpenVPN (openvpn.net/community-downloads) \
             и откройте эту страницу снова.</p>\n",
        );
        reveal_with_fuel(calm, 11);
    }
    lemma_calm(TUNNEL_MISSING@);
}

proof fn lemma_no_subnets_is_calm()
    ensures
        is_calm(TUNNEL_NO_SUBNETS@),
{
    assert(calm(TUNNEL_NO_SUBNETS@, 0, TUNNEL_NO_SUBNETS@.len() as int)) by {
        reveal_strlit(
            "<p class=\"hint\">Офисные подсети не заданы — маршруты в профиль \
             не добавятся (раздел «Апстримы» их не хранит; правится файлом \
             конфига).</p>\n",
        );
        reveal_with_fuel(calm, 11);
    }
    lemma_calm(TUNNEL_NO_SUBNETS@);
}

proof fn lemma_name_note_is_calm()
    ensures
        is_calm(TUNNEL_NAME_NOTE@),
{
    assert(calm(TUNNEL_NAME_NOTE@, 0, TUNNEL_NAME_NOTE@.len() as int)) by {
        reveal_strlit(
            "»; поднят ли \
             туннель — определяется по логу OpenVPN GUI для этого же имени, а \
             не по имени адаптера).</p>\n",
        );
        reveal_with_fuel(calm, 11);
    }
    lemma_calm(TUNNEL_NAME_NOTE@);
}

proof fn lemma_dns_is_calm()
    ensures
        is_calm(TUNNEL_DNS@),
{
    assert(calm(TUNNEL_DNS@, 0, TUNNEL_DNS@.len() as int)) by {
        reveal_strlit(
            "<p class=\"warn\">Пока туннель поднят, все DNS-запросы уходят в офис \
             — так резолвятся внутренние имена (git, dev-серверы), и это \
             осознанная плата (спека 8.2). Вне туннеля резолвинг снова \
             обычный.</p>\n",
        );
        reveal_with_fuel(calm, 11);
    }
    lemma_calm(TUNNEL_DNS@);
}

proof fn lemma_unknown_is_calm()
    ensures
        is_calm(TUNNEL_UNKNOWN@),
{
    assert(calm(TUNNEL_UNKNOWN@, 0, TUNNEL_UNKNOWN@.len() as int)) by {
        reveal_strlit(
            "<p class=\"note bad\">Не удалось определить, поднят ли туннель \
             (лог OpenVPN GUI): ",
        );
        reveal_with_fuel(calm, 11);
    }
    lemma_calm(TUNNEL_UNKNOWN@);
}

proof fn lemma_unknown_end_is_calm()
    ensures
        is_calm(TUNNEL_UNKNOWN_END@),
{
    assert(calm(TUNNEL_UNKNOWN_END@, 0, TUNNEL_UNKNOWN_END@.len() as int)) by {
        reveal_strlit(
            " — состояние неизвестно. Обе кнопки ниже \
             показаны: лишний повторный подъём или опускание для OpenVPN \
             GUI обычно безвреден, но после нажатия стоит свериться с \
             иконкой ProxyPilot в трее.</p>\n",
        );
        reveal_with_fuel(calm, 11);
    }
    lemma_calm(TUNNEL_UNKNOWN_END@);
}

proof fn lemma_unchecked_is_calm()
    ensures
        is_calm(TUNNEL_UNCHECKED@),
{
    assert(calm(TUNNEL_UNCHECKED@, 0, TUNNEL_UNCHECKED@.len() as int)) by {
        reveal_strlit(
            "<p class=\"note bad\">Туннель опущен. Не удалось прочитать \
             таблицу маршрутов, чтобы проверить, не занят ли он уже другим \
             VPN: ",
        );
        reveal_with_fuel(calm, 11);
    }
    lemma_calm(TUNNEL_UNCHECKED@);
}

proof fn lemma_unchecked_end_is_calm()
    ensures
        is_calm(TUNNEL_UNCHECKED_END@),
{
    assert(calm(TUNNEL_UNCHECKED_END@, 0, TUNNEL_UNCHECKED_END@.len() as int)) by {
        reveal_strlit(
            " — подъём временно недоступен, пока это не \
             исправится.</p>\n",
        );
        reveal_with_fuel(calm, 11);
    }
    lemma_calm(TUNNEL_UNCHECKED_END@);
}

proof fn lemma_occupied_is_calm()
    ensures
        is_calm(TUNNEL_OCCUPIED@),
{
    assert(calm(TUNNEL_OCCUPIED@, 0, TUNNEL_OCCUPIED@.len() as int)) by {
        reveal_strlit(
            "<p class=\"note bad\">Туннель опущен, но какой-то туннельный \
             адаптер уже несёт офисные подсети (другой VPN, Tailscale, \
             WireGuard... или наша же не до конца закрытая прошлая сессия — \
             отличить по имени адаптера нельзя). Поднимать свой нельзя — \
             два туннеля будут спорить за маршруты. Закройте тот, что уже \
             поднят, и вернитесь сюда.</p>\n",
        );
        reveal_with_fuel(calm, 11);
    }
    lemma_calm(TUNNEL_OCCUPIED@);
}

proof fn lemma_privileges_is_calm()
    ensures
        is_calm(TUNNEL_PRIVILEGES@),
{
    assert(calm(TUNNEL_PRIVILEGES@, 0, TUNNEL_PRIVILEGES@.len() as int)) by {
        reveal_strlit(
            "<p class=\"hint\">Кнопки ниже выходят за рамки обычной работы \
             приложения. «Собрать профиль» пишет .ovpn-файл в каталог \
             конфигураций OpenVPN — прав администратора не нужно, окна UAC не \
             будет. «Установить службу статического IP» — да, нужны права \
             администратора: Windows покажет запрос UAC, единственный во всём \
             приложении.</p>\n",
        );
        reveal_with_fuel(calm, 11);
    }
    lemma_calm(TUNNEL_PRIVILEGES@);
}

proof fn lemma_short_words_are_calm()
    ensures
        is_calm("<h2 id=\"tunnel\">Туннель (OpenVPN)</h2>\n"@),
        is_calm("<p class=\"hint\">Через туннель маршрутизируются подсети: "@),
        is_calm(".</p>\n"@),
        is_calm("<p>Профиль в OpenVPN: <b>"@),
        is_calm("установлен"@),
        is_calm("не собран"@),
        is_calm("</b> (имя «"@),
        is_calm("<p class=\"note good\">Туннель поднят.</p>\n"@),
        is_calm("<p class=\"note good\">Туннель поднимается…</p>\n"@),
        is_calm("<p>Туннель опущен.</p>\n"@),
        is_calm("<p class=\"hint\">Сначала соберите профиль — кнопка ниже.</p>\n"@),
        is_calm("</button></form>\n"@),
        is_calm("\">"@),
{
    reveal_strlit("<h2 id=\"tunnel\">Туннель (OpenVPN)</h2>\n");
    reveal_strlit("<p class=\"hint\">Через туннель маршрутизируются подсети: ");
    reveal_strlit(".</p>\n");
    reveal_strlit("<p>Профиль в OpenVPN: <b>");
    reveal_strlit("установлен");
    reveal_strlit("не собран");
    reveal_strlit("</b> (имя «");
    reveal_strlit("<p class=\"note good\">Туннель поднят.</p>\n");
    reveal_strlit("<p class=\"note good\">Туннель поднимается…</p>\n");
    reveal_strlit("<p>Туннель опущен.</p>\n");
    reveal_strlit("<p class=\"hint\">Сначала соберите профиль — кнопка ниже.</p>\n");
    reveal_strlit("</button></form>\n");
    reveal_strlit("\">");
    reveal_with_fuel(calm, 8);
    lemma_calm("<h2 id=\"tunnel\">Туннель (OpenVPN)</h2>\n"@);
    lemma_calm("<p class=\"hint\">Через туннель маршрутизируются подсети: "@);
    lemma_calm(".</p>\n"@);
    lemma_calm("<p>Профиль в OpenVPN: <b>"@);
    lemma_calm("установлен"@);
    lemma_calm("не собран"@);
    lemma_calm("</b> (имя «"@);
    lemma_calm("<p class=\"note good\">Туннель поднят.</p>\n"@);
    lemma_calm("<p class=\"note good\">Туннель поднимается…</p>\n"@);
    lemma_calm("<p>Туннель опущен.</p>\n"@);
    lemma_calm("<p class=\"hint\">Сначала соберите профиль — кнопка ниже.</p>\n"@);
    lemma_calm("</button></form>\n"@);
    lemma_calm("\">"@);
}

// ---------------------------------------------------------------------------
// Buttons
// ---------------------------------------------------------------------------

/// A text of plain characters is the same in the markup.
proof fn lemma_plain_is_kept(s: Seq<char>)
    requires
        forall|i: int| 0 <= i < s.len() ==> entity(#[trigger] s[i]) == seq![s[i]],
    ensures
        escaped(s) == s,
    decreases s.len(),
{
    if s.len() > 0 {
        let rest = s.drop_last();
        assert forall|i: int| 0 <= i < rest.len() implies entity(#[trigger] rest[i]) == seq![rest[i]]
            by {
            assert(rest[i] == s[i]);
        }
        lemma_plain_is_kept(rest);
        assert(entity(s[s.len() - 1]) == seq![s[s.len() - 1]]);
    }
    assert(escaped(s) =~= s);
}

/// What the markup of a button begins with.
spec fn form_start() -> Seq<char> {
    "<form method=\"post\" action=\"\" class=\"action\"><button type=\"submit\" name=\"action\" value=\""@
}

proof fn lemma_form_start()
    ensures
        ({
            let start = form_start();
            &&& start.len() > 7
            &&& calm(start, 0, start.len() - 1)
            &&& start.last() == '"'
            &&& start.skip(start.len() - 7) == "value=\""@
        }),
{
    reveal_strlit(
        "<form method=\"post\" action=\"\" class=\"action\"><button type=\"submit\" name=\"action\" value=\"",
    );
    reveal_strlit("value=\"");
    reveal_with_fuel(calm, 9);
    assert(form_start().skip(form_start().len() - 7) =~= "value=\""@);
}

/// The button of an action that begins with another letter.
proof fn lemma_other_button(action: Seq<char>, label: Seq<char>, c: char)
    requires
        action.len() > 0,
        c == 'l' || c == 'r',
        action[0] != c,
        entity(action[0]) == seq![action[0]],
    ensures
        free(action_form_html(action, label), c),
{
    let start = form_start();
    let name = escaped(action);
    lemma_form_start();
    lemma_short_words_are_calm();
    lemma_escaped_is_calm(action);
    lemma_escaped_is_calm(label);
    lemma_escaped_from_the_left(action);
    assert(name[0] == action[0]);
    lemma_free_joined(name, "\">"@, c);
    lemma_free_joined(name + "\">"@, escaped(label), c);
    lemma_free_joined(name + "\">"@ + escaped(label), "</button></form>\n"@, c);
    let rest = name + "\">"@ + escaped(label) + "</button></form>\n"@;
    assert(rest[0] == name[0]);
    let html = start + rest;
    assert forall|k: int| 0 <= k < html.len() && #[trigger] html[k] == '"' implies k + 1
        < html.len() && html[k + 1] != c by {
        if k < start.len() - 1 {
            lemma_calm_between(start, 0, start.len() - 1, k);
            assert(html[k + 1] == start[k + 1]);
        } else if k == start.len() - 1 {
            assert(html[k + 1] == rest[0]);
        } else {
            assert(rest[k - start.len()] == '"');
        }
    }
    assert(action_form_html(action, label) =~= html);
}

proof fn lemma_shown_within(before: Seq<char>, text: Seq<char>, behind: Seq<char>, part: Seq<char>)
    requires
        shows(text, part),
    ensures
        shows(before + text + behind, part),
{
    let i = choose|i: int|
        0 <= i && i + part.len() <= text.len() && #[trigger] text.subrange(i, i + part.len())
            == part;
    let all = before + text + behind;
    let at = before.len() + i;
    assert(all.subrange(at, at + part.len()) =~= text.subrange(i, i + part.len()));
}

/// The button of an action is marked as such.
proof fn lemma_button_is_marked(action: Seq<char>, label: Seq<char>)
    requires
        forall|i: int| 0 <= i < action.len() ==> entity(#[trigger] action[i]) == seq![action[i]],
    ensures
        shows(action_form_html(action, label), button_mark(action)),
{
    let start = form_start();
    lemma_form_start();
    lemma_plain_is_kept(action);
    reveal_strlit("\">");
    reveal_strlit("\"");
    reveal_strlit("value=\"");
    let mark = button_mark(action);
    let html = action_form_html(action, label);
    let at = start.len() - 7;
    assert(html.subrange(at, at + mark.len()) =~= mark) by {
        assert forall|k: int| 0 <= k < mark.len() implies html[at + k] == #[trigger] mark[k] by {
            if k < 7 {
                assert(mark[k] == "value=\""@[k]);
                assert(start.skip(at)[k] == start[at + k]);
            } else if k < 7 + action.len() {
                assert(mark[k] == action[k - 7]);
            }
        }
    }
}

/// Where no quote stands before `c`, no button of an action that begins with
/// `c` is marked.
proof fn lemma_unmarked(html: Seq<char>, action: Seq<char>)
    requires
        action.len() > 0,
        free(html, action[0]),
    ensures
        !shows(html, button_mark(action)),
{
    let mark = button_mark(action);
    reveal_strlit("value=\"");
    if shows(html, mark) {
        let i = choose|i: int|
            0 <= i && i + mark.len() <= html.len() && #[trigger] html.subrange(i, i + mark.len())
                == mark;
        let found = html.subrange(i, i + mark.len());
        assert(found[6] == html[i + 6] && mark[6] == '"');
        assert(found[7] == html[i + 7] && mark[7] == action[0]);
    }
}

/// The names of the buttons.
proof fn lemma_actions()
    ensures
        forall|i: int|
            0 <= i < "raise_tunnel"@.len() ==> entity(#[trigger] "raise_tunnel"@[i])
                == seq!["raise_tunnel"@[i]],
        forall|i: int|
            0 <= i < "lower_tunnel"@.len() ==> entity(#[trigger] "lower_tunnel"@[i])
                == seq!["lower_tunnel"@[i]],
        "raise_tunnel"@.len() > 0 && "raise_tunnel"@[0] == 'r',
        "lower_tunnel"@.len() > 0 && "lower_tunnel"@[0] == 'l',
        "build_tunnel_profile"@.len() > 0 && "build_tunnel_profile"@[0] == 'b',
        "install_service"@.len() > 0 && "install_service"@[0] == 'i',
{
    reveal_strlit("raise_tunnel");
    reveal_strlit("lower_tunnel");
    reveal_strlit("build_tunnel_profile");
    reveal_strlit("install_service");
    assert("raise_tunnel"@ =~= seq!['r', 'a', 'i', 's', 'e', '_', 't', 'u', 'n', 'n', 'e', 'l']);
    assert("lower_tunnel"@ =~= seq!['l', 'o', 'w', 'e', 'r', '_', 't', 'u', 'n', 'n', 'e', 'l']);
}

// ---------------------------------------------------------------------------
// The section
// ---------------------------------------------------------------------------

proof fn lemma_words_are_calm(status: TunnelStatus)
    ensures
        is_calm(tunnel_words_html(status)),
{
    lemma_short_words_are_calm();
    match status {
        TunnelStatus::NotInstalled => {
            lemma_missing_is_calm();
        },
        TunnelStatus::Unknown(why) => {
            lemma_unknown_is_calm();
            lemma_unknown_end_is_calm();
            lemma_escaped_is_calm(why);
            lemma_calm_joined(TUNNEL_UNKNOWN@, escaped(why));
            lemma_calm_joined(TUNNEL_UNKNOWN@ + escaped(why), TUNNEL_UNKNOWN_END@);
        },
        TunnelStatus::Unchecked(why) => {
            lemma_unchecked_is_calm();
            lemma_unchecked_end_is_calm();
            lemma_escaped_is_calm(why);
            lemma_calm_joined(TUNNEL_UNCHECKED@, escaped(why));
            lemma_calm_joined(TUNNEL_UNCHECKED@ + escaped(why), TUNNEL_UNCHECKED_END@);
        },
        TunnelStatus::Occupied => {
            lemma_occupied_is_calm();
        },
        _ => {},
    }
}

/// What stands before the state of the tunnel.
spec fn section_start(subnets: Seq<Seq<char>>, profile_installed: bool) -> Seq<char> {
    "<h2 id=\"tunnel\">Туннель (OpenVPN)</h2>\n"@ + subnets_html(subnets)
        + "<p>Профиль в OpenVPN: <b>"@ + (if profile_installed {
        "установлен"@
    } else {
        "не собран"@
    }) + "</b> (имя «"@ + escaped(TUNNEL_PROFILE_NAME@) + TUNNEL_NAME_NOTE@ + TUNNEL_DNS@
}

proof fn lemma_start_is_calm(subnets: Seq<Seq<char>>, profile_installed: bool)
    ensures
        is_calm(section_start(subnets, profile_installed)),
{
    lemma_short_words_are_calm();
    lemma_no_subnets_is_calm();
    lemma_name_note_is_calm();
    lemma_dns_is_calm();
    lemma_escaped_is_calm(TUNNEL_PROFILE_NAME@);
    let list = escaped(joined(subnets, ", "@));
    lemma_escaped_is_calm(joined(subnets, ", "@));
    lemma_calm_joined("<p class=\"hint\">Через туннель маршрутизируются подсети: "@, list);
    lemma_calm_joined(
        "<p class=\"hint\">Через туннель маршрутизируются подсети: "@ + list,
        ".</p>\n"@,
    );
    let a = "<h2 id=\"tunnel\">Туннель (OpenVPN)</h2>\n"@;
    let b = a + subnets_html(subnets);
    lemma_calm_joined(a, subnets_html(subnets));
    let c = b + "<p>Профиль в OpenVPN: <b>"@;
    lemma_calm_joined(b, "<p>Профиль в OpenVPN: <b>"@);
    let word = if profile_installed {
        "установлен"@
    } else {
        "не собран"@
    };
    let d = c + word;
    lemma_calm_joined(c, word);
    let e = d + "</b> (имя «"@;
    lemma_calm_joined(d, "</b> (имя «"@);
    let f = e + escaped(TUNNEL_PROFILE_NAME@);
    lemma_calm_joined(e, escaped(TUNNEL_PROFILE_NAME@));
    lemma_calm_joined(f, TUNNEL_NAME_NOTE@);
    lemma_calm_joined(f + TUNNEL_NAME_NOTE@, TUNNEL_DNS@);
}

/// What stands behind the state of the tunnel.
spec fn section_end() -> Seq<char> {
    TUNNEL_PRIVILEGES@ + action_form_html("build_tunnel_profile"@, "Собрать профиль"@)
        + action_form_html("install_service"@, "Установить службу статического IP…"@)
}

proof fn lemma_end_is_calm()
    ensures
        is_calm(section_end()),
{
    let build = action_form_html("build_tunnel_profile"@, "Собрать профиль"@);
    let install = action_form_html("install_service"@, "Установить службу статического IP…"@);
    lemma_actions();
    lemma_privileges_is_calm();
    lemma_other_button("build_tunnel_profile"@, "Собрать профиль"@, 'l');
    lemma_other_button("build_tunnel_profile"@, "Собрать профиль"@, 'r');
    lemma_other_button("install_service"@, "Установить службу статического IP…"@, 'l');
    lemma_other_button("install_service"@, "Установить службу статического IP…"@, 'r');
    lemma_calm_joined(TUNNEL_PRIVILEGES@, build);
    lemma_calm_joined(TUNNEL_PRIVILEGES@ + build, install);
}

/// The state of the tunnel shows the button for raising it exactly if raising is
/// offered, and the one for lowering it exactly if lowering is.
proof fn lemma_state_buttons(status: TunnelStatus, profile_installed: bool)
    ensures
        ({
            let html = tunnel_state_html(status, profile_installed);
            &&& if offers_raise(status, profile_installed) {
                shows(html, button_mark("raise_tunnel"@))
            } else {
                free(html, 'r')
            }
            &&& if offers_lower(status) {
                shows(html, button_mark("lower_tunnel"@))
            } else {
                free(html, 'l')
            }
        }),
{
    let raise_label = "Поднять туннель"@;
    let lower_label = if status is Rising {
        "Отменить / опустить туннель"@
    } else {
        "Опустить туннель"@
    };
    let raise = action_form_html("raise_tunnel"@, raise_label);
    let lower = action_form_html("lower_tunnel"@, lower_label);
    let words = tunnel_words_html(status);
    let first = if offers_raise(status, profile_installed) {
        raise
    } else if status is Down {
        "<p class=\"hint\">Сначала соберите профиль — кнопка ниже.</p>\n"@
    } else {
        Seq::empty()
    };
    let second = if offers_lower(status) {
        lower
    } else {
        Seq::empty()
    };
    let html = words + first + second;
    assert(tunnel_state_html(status, profile_installed) == html);
    lemma_actions();
    lemma_short_words_are_calm();
    lemma_words_are_calm(status);
    lemma_other_button("raise_tunnel"@, raise_label, 'l');
    lemma_other_button("lower_tunnel"@, lower_label, 'r');
    lemma_button_is_marked("raise_tunnel"@, raise_label);
    lemma_button_is_marked("lower_tunnel"@, lower_label);
    if offers_raise(status, profile_installed) {
        lemma_shown_within(words, first, second, button_mark("raise_tunnel"@));
    } else {
        lemma_free_joined(words, first, 'r');
        lemma_free_joined(words + first, second, 'r');
    }
    if offers_lower(status) {
        lemma_shown_within(words + first, second, Seq::empty(), button_mark("lower_tunnel"@));
        assert(words + first + second + Seq::<char>::empty() =~= html);
    } else {
        lemma_free_joined(words, first, 'l');
        lemma_free_joined(words + first, second, 'l');
    }
}

/// The section shows the two buttons exactly where it offers them.
proof fn lemma_section_buttons(subnets: Seq<Seq<char>>, snap: TunnelSnapshot)
    ensures
        ({
            let html = tunnel_html(subnets, snap);
            let status = tunnel_status(snap);
            &&& shows(html, button_mark("raise_tunnel"@)) <==> offers_raise(
                status,
                snap.profile_installed,
            )
            &&& shows(html, button_mark("lower_tunnel"@)) <==> offers_lower(status)
        }),
{
    let html = tunnel_html(subnets, snap);
    let status = tunnel_status(snap);
    lemma_actions();
    if !snap.installed {
        let title = "<h2 id=\"tunnel\">Туннель (OpenVPN)</h2>\n"@;
        lemma_short_words_are_calm();
        lemma_missing_is_calm();
        lemma_calm_joined(title, TUNNEL_MISSING@);
        lemma_unmarked(html, "raise_tunnel"@);
        lemma_unmarked(html, "lower_tunnel"@);
    } else {
        let start = section_start(subnets, snap.profile_installed);
        let state = tunnel_state_html(status, snap.profile_installed);
        let end = section_end();
        lemma_start_is_calm(subnets, snap.profile_installed);
        lemma_end_is_calm();
        lemma_state_buttons(status, snap.profile_installed);
        assert(html =~= start + state + end);
        if offers_raise(status, snap.profile_installed) {
            lemma_shown_within(start, state, end, button_mark("raise_tunnel"@));
        } else {
            lemma_free_joined(start, state, 'r');
            lemma_free_joined(start + state, end, 'r');
            lemma_unmarked(html, "raise_tunnel"@);
        }
        if offers_lower(status) {
            lemma_shown_within(start, state, end, button_mark("lower_tunnel"@));
        } else {
            lemma_free_joined(start, state, 'l');
            lemma_free_joined(start + state, end, 'l');
            lemma_unmarked(html, "lower_tunnel"@);
        }
    }
}

/// The lines about the tunnel differ from each other.
proof fn lemma_lines_differ()
    ensures
        "Туннель: OpenVPN не установлен"@.len() == 30,
        "Туннель: состояние неизвестно"@.len() == 29,
        "Туннель: поднят"@.len() == 15,
        "Туннель: поднимается…"@.len() == 21,
        "Туннель: опущен · маршруты не проверены"@.len() == 39,
        "Туннель: опущен · маршруты заняты другим адаптером"@.len() == 50,
        "Туннель: опущен"@.len() == 15,
        "Туннель: опущен · профиль не собран"@.len() == 35,
        "Туннель: поднят"@ != "Туннель: опущен"@,
{
    reveal_strlit("Туннель: OpenVPN не установлен");
    reveal_strlit("Туннель: состояние неизвестно");
    reveal_strlit("Туннель: поднят");
    reveal_strlit("Туннель: поднимается…");
    reveal_strlit("Туннель: опущен · маршруты не проверены");
    reveal_strlit("Туннель: опущен · маршруты заняты другим адаптером");
    reveal_strlit("Туннель: опущен");
    reveal_strlit("Туннель: опущен · профиль не собран");
    assert("Туннель: поднят"@[9] == 'п' && "Туннель: опущен"@[9] == 'о');
}

/// The line in the menu and the buttons on the page agree. The page has the
/// button that lowers the tunnel exactly where the menu says that the tunnel is
/// up, on its way or not known, and the button that raises it exactly where the
/// menu says that it is down with nothing in its way, or not known.
pub proof fn the_menu_and_the_page_agree(subnets: Seq<Seq<char>>, snap: TunnelSnapshot)
    ensures
        ({
            let html = tunnel_html(subnets, snap);
            let line = tunnel_line(tunnel_status(snap), snap.profile_installed);
            &&& shows(html, button_mark("lower_tunnel"@)) <==> (line == "Туннель: поднят"@ || line
                == "Туннель: поднимается…"@ || line == "Туннель: состояние неизвестно"@)
            &&& shows(html, button_mark("raise_tunnel"@)) <==> (line == "Туннель: опущен"@ || line
                == "Туннель: состояние неизвестно"@)
        }),
{
    lemma_section_buttons(subnets, snap);
    lemma_lines_differ();
}

/// The page offers to raise the tunnel where OpenVPN is there and either nobody
/// knows whether the tunnel is up, or it is down, has a profile, and nothing is
/// known to stand in its way. It offers to lower it where OpenVPN is there and the
/// tunnel is up, on its way, or not known to be down.
pub proof fn the_page_offers_what_can_be_done(
    subnets: &Vec<String>,
    snap: &TunnelSnapshot,
    out: String,
)
    requires
        call_ensures(tunnel_section, (subnets, snap), out),
    ensures
        shows(out@, "value=\""@ + "raise_tunnel"@ + "\""@) <==> snap.installed && (
        snap.liveness_error is Some || (!snap.our_tunnel_up && !snap.rising
            && snap.routes_error is None && !snap.foreign_tunnel_up && snap.profile_installed)),
        shows(out@, "value=\""@ + "lower_tunnel"@ + "\""@) <==> snap.installed && (
        snap.liveness_error is Some || snap.our_tunnel_up || snap.rising),
{
    lemma_section_buttons(texts(subnets@), *snap);
}

/// The buttons for the profile and for the service are there wherever OpenVPN is.
pub proof fn the_profile_can_be_built_wherever_openvpn_is(
    subnets: &Vec<String>,
    snap: &TunnelSnapshot,
    out: String,
)
    requires
        call_ensures(tunnel_section, (subnets, snap), out),
        snap.installed,
    ensures
        shows(out@, "value=\""@ + "build_tunnel_profile"@ + "\""@),
        shows(out@, "value=\""@ + "install_service"@ + "\""@),
{
    let html = tunnel_html(texts(subnets@), *snap);
    let start = section_start(texts(subnets@), snap.profile_installed);
    let state = tunnel_state_html(tunnel_status(*snap), snap.profile_installed);
    let build = action_form_html("build_tunnel_profile"@, "Собрать профиль"@);
    let install = action_form_html("install_service"@, "Установить службу статического IP…"@);
    reveal_strlit("build_tunnel_profile");
    reveal_strlit("install_service");
    lemma_button_is_marked("build_tunnel_profile"@, "Собрать профиль"@);
    lemma_button_is_marked("install_service"@, "Установить службу статического IP…"@);
    let x = start + state + TUNNEL_PRIVILEGES@;
    assert(html =~= x + build + install);
    lemma_shown_within(x, build, install, button_mark("build_tunnel_profile"@));
    lemma_shown_within(x + build, install, Seq::empty(), button_mark("install_service"@));
    assert(x + build + install + Seq::<char>::empty() =~= html);
}

} // verus!
