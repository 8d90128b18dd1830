//! That the list of what is never fetched is sound.
use vstd::prelude::*;
use vstd::seq_lib::seq_to_set_is_finite;
use vstd::utf8::is_ascii_chars;

use crate::policy::{entry_of, lemma_entry_of, pattern, ENTRIES};
use crate::text::ascii_lowercase;

verus! {

/// The number of the entry with this pattern, told by the length of the pattern
/// and by a character or two.
pub open spec fn place(p: Seq<char>) -> int {
    if p.len() == 4 {
        105
    } else if p.len() == 7 {
        if p[0] == 'h' {
            18
        } else {
            37
        }
    } else if p.len() == 8 {
        if p[0] == 'a' {
            40
        } else {
            32
        }
    } else if p.len() == 9 {
        if p[0] == 'a' {
            61
        } else if p[0] == 'b' {
            39
        } else if p[0] == 'o' {
            63
        } else {
            86
        }
    } else if p.len() == 10 {
        if p[2] == 'g' {
            22
        } else if p[2] == 'i' {
            if p[7] == 'c' {
                65
            } else {
                67
            }
        } else if p[2] == 'm' {
            33
        } else if p[2] == 'n' {
            72
        } else {
            74
        }
    } else if p.len() == 11 {
        if p[0] == 'k' {
            116
        } else if p[0] == 'n' {
            93
        } else if p[0] == 's' {
            21
        } else {
            68
        }
    } else if p.len() == 12 {
        if p[3] == '.' {
            106
        } else if p[3] == 'b' {
            if p[0] == 'a' {
                2
            } else {
                70
            }
        } else if p[3] == 'e' {
            96
        } else if p[3] == 'i' {
            108
        } else if p[3] == 'm' {
            64
        } else if p[3] == 'o' {
            45
        } else if p[3] == 'p' {
            15
        } else if p[3] == 'r' {
            if p[0] == 'l' {
                80
            } else {
                92
            }
        } else if p[3] == 's' {
            114
        } else if p[3] == 't' {
            109
        } else {
            43
        }
    } else if p.len() == 13 {
        if p[6] == 'b' {
            112
        } else if p[6] == 'e' {
            if p[10] == 'c' {
                25
            } else {
                26
            }
        } else if p[6] == 'h' {
            118
        } else if p[6] == 'k' {
            79
        } else if p[6] == 'l' {
            if p[0] == 'c' {
                110
            } else {
                84
            }
        } else if p[6] == 'm' {
            5
        } else if p[6] == 'o' {
            if p[0] == 'f' {
                77
            } else {
                82
            }
        } else if p[6] == 'p' {
            17
        } else if p[6] == 't' {
            6
        } else {
            11
        }
    } else if p.len() == 14 {
        if p[6] == '-' {
            88
        } else if p[6] == 'e' {
            29
        } else if p[6] == 'g' {
            24
        } else if p[6] == 'i' {
            99
        } else if p[6] == 'k' {
            103
        } else if p[6] == 'n' {
            73
        } else if p[6] == 't' {
            85
        } else {
            35
        }
    } else if p.len() == 15 {
        if p[4] == '.' {
            4
        } else if p[4] == 'b' {
            98
        } else if p[4] == 'c' {
            120
        } else if p[4] == 'e' {
            34
        } else if p[4] == 'k' {
            117
        } else if p[4] == 'l' {
            46
        } else if p[4] == 'n' {
            95
        } else if p[4] == 's' {
            23
        } else {
            69
        }
    } else if p.len() == 16 {
        if p[6] == '.' {
            87
        } else if p[6] == 'a' {
            44
        } else if p[6] == 'g' {
            81
        } else if p[6] == 'l' {
            78
        } else if p[6] == 'n' {
            101
        } else if p[6] == 't' {
            107
        } else if p[6] == 'v' {
            55
        } else {
            16
        }
    } else if p.len() == 17 {
        if p[10] == 'h' {
            119
        } else if p[10] == 'i' {
            if p[0] == 'g' {
                47
            } else {
                19
            }
        } else if p[10] == 'j' {
            if p[1] == 'c' {
                76
            } else {
                75
            }
        } else if p[10] == 'l' {
            111
        } else if p[10] == 'o' {
            83
        } else if p[10] == 't' {
            66
        } else {
            if p[0] == 'a' {
                12
            } else {
                13
            }
        }
    } else if p.len() == 18 {
        if p[0] == 'a' {
            14
        } else if p[0] == 'c' {
            36
        } else if p[0] == 'p' {
            28
        } else {
            62
        }
    } else if p.len() == 19 {
        if p[1] == 'd' {
            58
        } else if p[1] == 'm' {
            51
        } else if p[1] == 'p' {
            121
        } else if p[1] == 's' {
            3
        } else {
            100
        }
    } else if p.len() == 20 {
        if p[8] == 'f' {
            97
        } else if p[8] == 'g' {
            0
        } else if p[8] == 'h' {
            27
        } else if p[8] == 'l' {
            if p[0] == 'c' {
                57
            } else {
                56
            }
        } else if p[8] == 'n' {
            7
        } else if p[8] == 'o' {
            71
        } else if p[8] == 's' {
            if p[0] == 'a' {
                102
            } else {
                49
            }
        } else {
            115
        }
    } else if p.len() == 21 {
        if p[7] == '.' {
            113
        } else if p[7] == 'a' {
            1
        } else if p[7] == 'd' {
            60
        } else if p[7] == 'p' {
            20
        } else if p[7] == 'r' {
            30
        } else if p[7] == 't' {
            94
        } else {
            48
        }
    } else if p.len() == 22 {
        if p[0] == 'b' {
            89
        } else if p[0] == 'c' {
            41
        } else {
            104
        }
    } else if p.len() == 23 {
        if p[0] == 'a' {
            52
        } else {
            10
        }
    } else if p.len() == 24 {
        if p[1] == 'b' {
            31
        } else if p[1] == 's' {
            8
        } else {
            9
        }
    } else if p.len() == 26 {
        59
    } else if p.len() == 27 {
        90
    } else if p.len() == 28 {
        91
    } else if p.len() == 29 {
        if p[0] == 'p' {
            50
        } else {
            42
        }
    } else {
        if p[1] == 'e' {
            38
        } else if p[1] == 'l' {
            54
        } else {
            53
        }
    }
}

/// Whether a pattern holds something, and nothing but ASCII characters other
/// than capital letters.
pub open spec fn is_lowercase(p: Seq<char>) -> bool {
    p.len() > 0 && forall|k: int|
        0 <= k < p.len() ==> #[trigger] p[k] <= '\u{7f}' && !('A' <= p[k] <= 'Z')
}

/// Whether the entry number `i` has a sound pattern, and one that tells it from
/// all others.
pub open spec fn is_sane(i: int) -> bool {
    is_lowercase(pattern(i)) && place(pattern(i)) == i
}

/// Whether the first `n` entries have such patterns.
pub open spec fn are_sane(n: nat) -> bool
    decreases n,
{
    n == 0 || (are_sane((n - 1) as nat) && is_sane(n - 1))
}

proof fn lemma_entries_from_0()
    ensures
        are_sane(31),
{
    reveal_strlit("googletagmanager.com");
    reveal_strlit("googletagservices.com");
    reveal_strlit("adobedtm.com");
    reveal_strlit("assets.adobedtm.com");
    reveal_strlit("tags.tiqcdn.com");
    reveal_strlit("tealiumiq.com");
    reveal_strlit("ensighten.com");
    reveal_strlit("google-analytics.com");
    reveal_strlit("ssl.google-analytics.com");
    reveal_strlit("www.google-analytics.com");
    reveal_strlit("stats.g.doubleclick.net");
    reveal_strlit("amplitude.com");
    reveal_strlit("api.amplitude.com");
    reveal_strlit("cdn.amplitude.com");
    reveal_strlit("api2.amplitude.com");
    reveal_strlit("mixpanel.com");
    reveal_strlit("api.mixpanel.com");
    reveal_strlit("cdn.mxpnl.com");
    reveal_strlit("heap.io");
    reveal_strlit("heapanalytics.com");
    reveal_strlit("cdn.heapanalytics.com");
    reveal_strlit("segment.com");
    reveal_strlit("segment.io");
    reveal_strlit("cdn.segment.com");
    reveal_strlit("api.segment.io");
    reveal_strlit("chartbeat.com");
    reveal_strlit("chartbeat.net");
    reveal_strlit("static.chartbeat.com");
    reveal_strlit("ping.chartbeat.net");
    reveal_strlit("quantserve.com");
    reveal_strlit("scorecardresearch.com");
    reveal_with_fuel(are_sane, 32);
}

proof fn lemma_entries_from_31()
    requires
        are_sane(31),
    ensures
        are_sane(62),
{
    reveal_strlit("sb.scorecardresearch.com");
    reveal_strlit("krxd.net");
    reveal_strlit("demdex.net");
    reveal_strlit("everesttech.net");
    reveal_strlit("optimizely.com");
    reveal_strlit("cdn.optimizely.com");
    reveal_strlit("vwo.com");
    reveal_strlit("dev.visualwebsiteoptimizer.com");
    reveal_strlit("branch.io");
    reveal_strlit("app.link");
    reveal_strlit("cloudflareinsights.com");
    reveal_strlit("static.cloudflareinsights.com");
    reveal_strlit("plausible.io");
    reveal_strlit("cdn.plausible.io");
    reveal_strlit("matomo.cloud");
    reveal_strlit("doubleclick.net");
    reveal_strlit("g.doubleclick.net");
    reveal_strlit("googlesyndication.com");
    reveal_strlit("googleadservices.com");
    reveal_strlit("pagead2.googlesyndication.com");
    reveal_strlit("amazon-adsystem.com");
    reveal_strlit("aps.amazon-adsystem.com");
    reveal_strlit("config.aps.amazon-adsystem.com");
    reveal_strlit("client.aps.amazon-adsystem.com");
    reveal_strlit("doubleverify.com");
    reveal_strlit("pub.doubleverify.com");
    reveal_strlit("cdn.doubleverify.com");
    reveal_strlit("adsafeprotected.com");
    reveal_strlit("static.adsafeprotected.com");
    reveal_strlit("pixel.advertising.com");
    reveal_strlit("adnxs.com");
    reveal_with_fuel(are_sane, 32);
}

proof fn lemma_entries_from_62()
    requires
        are_sane(62),
    ensures
        are_sane(93),
{
    reveal_strlit("rubiconproject.com");
    reveal_strlit("openx.net");
    reveal_strlit("pubmatic.com");
    reveal_strlit("criteo.com");
    reveal_strlit("static.criteo.net");
    reveal_strlit("criteo.net");
    reveal_strlit("taboola.com");
    reveal_strlit("cdn.taboola.com");
    reveal_strlit("outbrain.com");
    reveal_strlit("widgets.outbrain.com");
    reveal_strlit("concert.io");
    reveal_strlit("cdn.concert.io");
    reveal_strlit("hotjar.com");
    reveal_strlit("static.hotjar.com");
    reveal_strlit("script.hotjar.com");
    reveal_strlit("fullstory.com");
    reveal_strlit("rs.fullstory.com");
    reveal_strlit("logrocket.com");
    reveal_strlit("logrocket.io");
    reveal_strlit("cdn.logrocket.io");
    reveal_strlit("smartlook.com");
    reveal_strlit("rec.smartlook.com");
    reveal_strlit("mouseflow.com");
    reveal_strlit("inspectlet.com");
    reveal_strlit("sentry.io");
    reveal_strlit("ingest.sentry.io");
    reveal_strlit("sentry-cdn.com");
    reveal_strlit("browser.sentry-cdn.com");
    reveal_strlit("datadoghq-browser-agent.com");
    reveal_strlit("browser-intake-datadoghq.com");
    reveal_strlit("newrelic.com");
    reveal_with_fuel(are_sane, 32);
}

proof fn lemma_entries_from_93()
    requires
        are_sane(93),
    ensures
        are_sane(122),
{
    reveal_strlit("nr-data.net");
    reveal_strlit("js-agent.newrelic.com");
    reveal_strlit("bam.nr-data.net");
    reveal_strlit("facebook.net");
    reveal_strlit("connect.facebook.net");
    reveal_strlit("facebook.com/tr");
    reveal_strlit("snap.licdn.com");
    reveal_strlit("px.ads.linkedin.com");
    reveal_strlit("ads.linkedin.com");
    reveal_strlit("analytics.tiktok.com");
    reveal_strlit("ads.tiktok.com");
    reveal_strlit("static.ads-twitter.com");
    reveal_strlit("t.co");
    reveal_strlit("bat.bing.com");
    reveal_strlit("ct.pinterest.com");
    reveal_strlit("s.pinimg.com");
    reveal_strlit("onetrust.com");
    reveal_strlit("cookielaw.org");
    reveal_strlit("cdn.cookielaw.org");
    reveal_strlit("cookiebot.com");
    reveal_strlit("consent.cookiebot.com");
    reveal_strlit("trustarc.com");
    reveal_strlit("consent.trustarc.com");
    reveal_strlit("ketchjs.com");
    reveal_strlit("cdn.ketchjs.com");
    reveal_strlit("cookiehub.com");
    reveal_strlit("cdn.cookiehub.com");
    reveal_strlit("usercentrics.eu");
    reveal_strlit("app.usercentrics.eu");
    reveal_with_fuel(are_sane, 30);
}

/// What holds of the first entries holds of each.
proof fn lemma_sane(n: nat, i: int)
    requires
        are_sane(n),
        0 <= i < n,
    ensures
        is_sane(i),
    decreases n,
{
    if i < n - 1 {
        lemma_sane((n - 1) as nat, i);
    }
}

/// The set of the patterns.
pub open spec fn exact_set() -> Set<Seq<char>> {
    Seq::new(ENTRIES.len() as nat, |i: int| pattern(i)).to_set()
}

/// No pattern is empty, each is ASCII text and its own lowercase form, and none
/// occurs twice.
pub proof fn law_entries_are_sane(i: int)
    requires
        0 <= i < ENTRIES.len(),
    ensures
        pattern(i).len() > 0,
        is_ascii_chars(pattern(i)),
        ascii_lowercase(pattern(i)) == pattern(i),
        forall|j: int| 0 <= j < ENTRIES.len() && j != i ==> #[trigger] pattern(j) != pattern(i),
{
    lemma_entries_from_0();
    lemma_entries_from_31();
    lemma_entries_from_62();
    lemma_entries_from_93();
    lemma_sane(122, i);
    assert forall|j: int| 0 <= j < ENTRIES.len() && j != i implies #[trigger] pattern(j) != pattern(
        i,
    ) by {
        lemma_sane(122, j);
    }
    assert(ascii_lowercase(pattern(i)) =~= pattern(i));
}

/// The set of the patterns has as many members as there are entries, and a host
/// is among them just where an entry is found for it.
pub proof fn law_patterns_are_a_set(host: Seq<char>)
    ensures
        exact_set().finite(),
        exact_set().len() == ENTRIES.len(),
        exact_set().contains(host) <==> entry_of(host, 0) is Some,
{
    let all = Seq::new(ENTRIES.len() as nat, |i: int| pattern(i));
    assert forall|i: int, j: int| 0 <= i < all.len() && 0 <= j < all.len() && i != j implies all[i]
        != all[j] by {
        law_entries_are_sane(i);
        assert(pattern(j) != pattern(i));
    }
    all.unique_seq_to_set();
    seq_to_set_is_finite(all);
    lemma_entry_of(host, 0);
    if entry_of(host, 0) is Some {
        let k = entry_of(host, 0)->0;
        assert(all[k] == host);
    } else if all.contains(host) {
        let k = choose|k: int| 0 <= k < all.len() && all[k] == host;
        assert(pattern(k) == host);
    }
}

} // verus!
