//! Version tables: the game release that each protocol number stands for.
//!
//! Both tables are pure data. A protocol number that a table does not list,
//! whatever its sign, resolves to the sentinel [`UNKNOWN`]; no lookup fails.
use vstd::prelude::*;

verus! {

/// The name that every unlisted protocol number resolves to.
pub const UNKNOWN: &'static str = "unknown";

/// The protocol number that this server advertises as its own.
pub const SERVER_PROTOCOL: i32 = 770;

/// Whether the modern table lists `protocol`.
pub open spec fn is_modern_protocol(protocol: i32) -> bool {
    ||| protocol == 770
    ||| protocol == 769
    ||| protocol == 768
    ||| protocol == 767
    ||| protocol == 766
    ||| protocol == 765
    ||| protocol == 764
    ||| protocol == 763
    ||| protocol == 762
    ||| protocol == 761
    ||| protocol == 760
    ||| protocol == 759
    ||| protocol == 758
    ||| protocol == 757
    ||| protocol == 756
    ||| protocol == 755
    ||| protocol == 754
    ||| protocol == 753
    ||| protocol == 751
    ||| protocol == 736
    ||| protocol == 735
    ||| protocol == 578
    ||| protocol == 575
    ||| protocol == 573
    ||| protocol == 498
    ||| protocol == 490
    ||| protocol == 485
    ||| protocol == 480
    ||| protocol == 477
    ||| protocol == 404
    ||| protocol == 401
    ||| protocol == 393
    ||| protocol == 340
    ||| protocol == 338
    ||| protocol == 335
    ||| protocol == 316
    ||| protocol == 315
    ||| protocol == 210
    ||| protocol == 110
    ||| protocol == 109
    ||| protocol == 108
    ||| protocol == 107
    ||| protocol == 47
    ||| protocol == 5
    ||| protocol == 4
    ||| protocol == 3
}

/// The modern table: the release name of `protocol`, or the sentinel.
pub open spec fn modern_version_name(protocol: i32) -> Seq<char> {
    if protocol == 770 {
        "1.21.5"@
    } else if protocol == 769 {
        "1.21.4"@
    } else if protocol == 768 {
        "1.21.3"@
    } else if protocol == 767 {
        "1.21.1"@
    } else if protocol == 766 {
        "1.20.6"@
    } else if protocol == 765 {
        "1.20.4"@
    } else if protocol == 764 {
        "1.20.2"@
    } else if protocol == 763 {
        "1.20.1"@
    } else if protocol == 762 {
        "1.19.4"@
    } else if protocol == 761 {
        "1.19.3"@
    } else if protocol == 760 {
        "1.19.2"@
    } else if protocol == 759 {
        "1.19"@
    } else if protocol == 758 {
        "1.18.2"@
    } else if protocol == 757 {
        "1.18.1"@
    } else if protocol == 756 {
        "1.17.1"@
    } else if protocol == 755 {
        "1.17"@
    } else if protocol == 754 {
        "1.16.5"@
    } else if protocol == 753 {
        "1.16.3"@
    } else if protocol == 751 {
        "1.16.2"@
    } else if protocol == 736 {
        "1.16.1"@
    } else if protocol == 735 {
        "1.16"@
    } else if protocol == 578 {
        "1.15.2"@
    } else if protocol == 575 {
        "1.15.1"@
    } else if protocol == 573 {
        "1.15"@
    } else if protocol == 498 {
        "1.14.4"@
    } else if protocol == 490 {
        "1.14.3"@
    } else if protocol == 485 {
        "1.14.2"@
    } else if protocol == 480 {
        "1.14.1"@
    } else if protocol == 477 {
        "1.14"@
    } else if protocol == 404 {
        "1.13.2"@
    } else if protocol == 401 {
        "1.13.1"@
    } else if protocol == 393 {
        "1.13"@
    } else if protocol == 340 {
        "1.12.2"@
    } else if protocol == 338 {
        "1.12.1"@
    } else if protocol == 335 {
        "1.12"@
    } else if protocol == 316 {
        "1.11.2"@
    } else if protocol == 315 {
        "1.11"@
    } else if protocol == 210 {
        "1.10.2"@
    } else if protocol == 110 {
        "1.9.4"@
    } else if protocol == 109 {
        "1.9.2"@
    } else if protocol == 108 {
        "1.9.1"@
    } else if protocol == 107 {
        "1.9"@
    } else if protocol == 47 {
        "1.8.9"@
    } else if protocol == 5 {
        "1.7.10"@
    } else if protocol == 4 {
        "1.7.5"@
    } else if protocol == 3 {
        "1.7"@
    } else {
        UNKNOWN@
    }
}

/// Whether the legacy table lists `protocol`.
pub open spec fn is_legacy_protocol(protocol: u8) -> bool {
    ||| protocol == 78
    ||| protocol == 74
    ||| protocol == 73
    ||| protocol == 61
    ||| protocol == 60
    ||| protocol == 51
    ||| protocol == 49
    ||| protocol == 47
    ||| protocol == 39
    ||| protocol == 29
    ||| protocol == 28
    ||| protocol == 23
    ||| protocol == 22
    ||| protocol == 21
    ||| protocol == 20
    ||| protocol == 19
    ||| protocol == 18
    ||| protocol == 17
    ||| protocol == 14
    ||| protocol == 13
    ||| protocol == 11
    ||| protocol == 10
    ||| protocol == 9
    ||| protocol == 8
    ||| protocol == 7
}

/// The legacy table: the release name of `protocol`, or the sentinel.
pub open spec fn legacy_version_name(protocol: u8) -> Seq<char> {
    if protocol == 78 {
        "1.6.4"@
    } else if protocol == 74 {
        "1.6.2"@
    } else if protocol == 73 {
        "1.6.1"@
    } else if protocol == 61 {
        "1.5.2"@
    } else if protocol == 60 {
        "1.5.1"@
    } else if protocol == 51 {
        "1.4.7"@
    } else if protocol == 49 {
        "1.4.5"@
    } else if protocol == 47 {
        "1.4.2"@
    } else if protocol == 39 {
        "1.3.2"@
    } else if protocol == 29 {
        "1.2.5"@
    } else if protocol == 28 {
        "1.2.3"@
    } else if protocol == 23 {
        "1.1"@
    } else if protocol == 22 {
        "1.0.1"@
    } else if protocol == 21 {
        "b1.9-pre5"@
    } else if protocol == 20 {
        "b1.9-pre4"@
    } else if protocol == 19 {
        "b1.9-pre3"@
    } else if protocol == 18 {
        "b1.9-pre1"@
    } else if protocol == 17 {
        "b1.8.1"@
    } else if protocol == 14 {
        "b1.7.3"@
    } else if protocol == 13 {
        "b1.6.6"@
    } else if protocol == 11 {
        "b1.5"@
    } else if protocol == 10 {
        "b1.4"@
    } else if protocol == 9 {
        "b1.3"@
    } else if protocol == 8 {
        "b1.2"@
    } else if protocol == 7 {
        "b1.1"@
    } else {
        UNKNOWN@
    }
}

/// Looks `protocol_version` up in the modern table.
pub fn mc_version(protocol_version: i32) -> (name: &'static str)
    ensures
        name@ == modern_version_name(protocol_version),
{
    match protocol_version {
        770 => "1.21.5",
        769 => "1.21.4",
        768 => "1.21.3",
        767 => "1.21.1",
        766 => "1.20.6",
        765 => "1.20.4",
        764 => "1.20.2",
        763 => "1.20.1",
        762 => "1.19.4",
        761 => "1.19.3",
        760 => "1.19.2",
        759 => "1.19",
        758 => "1.18.2",
        757 => "1.18.1",
        756 => "1.17.1",
        755 => "1.17",
        754 => "1.16.5",
        753 => "1.16.3",
        751 => "1.16.2",
        736 => "1.16.1",
        735 => "1.16",
        578 => "1.15.2",
        575 => "1.15.1",
        573 => "1.15",
        498 => "1.14.4",
        490 => "1.14.3",
        485 => "1.14.2",
        480 => "1.14.1",
        477 => "1.14",
        404 => "1.13.2",
        401 => "1.13.1",
        393 => "1.13",
        340 => "1.12.2",
        338 => "1.12.1",
        335 => "1.12",
        316 => "1.11.2",
        315 => "1.11",
        210 => "1.10.2",
        110 => "1.9.4",
        109 => "1.9.2",
        108 => "1.9.1",
        107 => "1.9",
        47 => "1.8.9",
        5 => "1.7.10",
        4 => "1.7.5",
        3 => "1.7",
        _ => UNKNOWN,
    }
}

/// Whether the modern table lists `protocol_version`.
pub fn is_listed(protocol_version: i32) -> (listed: bool)
    ensures
        listed == is_modern_protocol(protocol_version),
{
    match protocol_version {
        770
        | 769
        | 768
        | 767
        | 766
        | 765
        | 764
        | 763
        | 762
        | 761
        | 760
        | 759
        | 758
        | 757
        | 756
        | 755
        | 754
        | 753
        | 751
        | 736
        | 735
        | 578
        | 575
        | 573
        | 498
        | 490
        | 485
        | 480
        | 477
        | 404
        | 401
        | 393
        | 340
        | 338
        | 335
        | 316
        | 315
        | 210
        | 110
        | 109
        | 108
        | 107
        | 47
        | 5
        | 4
        | 3 => true,
        _ => false,
    }
}

/// Looks `protocol_version` up in the legacy table.
pub fn mc_version_legacy(protocol_version: u8) -> (name: &'static str)
    ensures
        name@ == legacy_version_name(protocol_version),
{
    match protocol_version {
        78 => "1.6.4",
        74 => "1.6.2",
        73 => "1.6.1",
        61 => "1.5.2",
        60 => "1.5.1",
        51 => "1.4.7",
        49 => "1.4.5",
        47 => "1.4.2",
        39 => "1.3.2",
        29 => "1.2.5",
        28 => "1.2.3",
        23 => "1.1",
        22 => "1.0.1",
        21 => "b1.9-pre5",
        20 => "b1.9-pre4",
        19 => "b1.9-pre3",
        18 => "b1.9-pre1",
        17 => "b1.8.1",
        14 => "b1.7.3",
        13 => "b1.6.6",
        11 => "b1.5",
        10 => "b1.4",
        9 => "b1.3",
        8 => "b1.2",
        7 => "b1.1",
        _ => UNKNOWN,
    }
}

/// A modern protocol number resolves to the sentinel exactly when the table
/// does not list it: no listed release is itself called "unknown", and
/// nothing unlisted gets a release name.
pub proof fn lemma_modern_unknown_iff_unlisted(protocol: i32)
    ensures
        modern_version_name(protocol) == UNKNOWN@ <==> !is_modern_protocol(protocol),
{
    reveal_strlit("unknown");
    reveal_strlit("1.10.2");
    reveal_strlit("1.11");
    reveal_strlit("1.11.2");
    reveal_strlit("1.12");
    reveal_strlit("1.12.1");
    reveal_strlit("1.12.2");
    reveal_strlit("1.13");
    reveal_strlit("1.13.1");
    reveal_strlit("1.13.2");
    reveal_strlit("1.14");
    reveal_strlit("1.14.1");
    reveal_strlit("1.14.2");
    reveal_strlit("1.14.3");
    reveal_strlit("1.14.4");
    reveal_strlit("1.15");
    reveal_strlit("1.15.1");
    reveal_strlit("1.15.2");
    reveal_strlit("1.16");
    reveal_strlit("1.16.1");
    reveal_strlit("1.16.2");
    reveal_strlit("1.16.3");
    reveal_strlit("1.16.5");
    reveal_strlit("1.17");
    reveal_strlit("1.17.1");
    reveal_strlit("1.18.1");
    reveal_strlit("1.18.2");
    reveal_strlit("1.19");
    reveal_strlit("1.19.2");
    reveal_strlit("1.19.3");
    reveal_strlit("1.19.4");
    reveal_strlit("1.20.1");
    reveal_strlit("1.20.2");
    reveal_strlit("1.20.4");
    reveal_strlit("1.20.6");
    reveal_strlit("1.21.1");
    reveal_strlit("1.21.3");
    reveal_strlit("1.21.4");
    reveal_strlit("1.21.5");
    reveal_strlit("1.7");
    reveal_strlit("1.7.10");
    reveal_strlit("1.7.5");
    reveal_strlit("1.8.9");
    reveal_strlit("1.9");
    reveal_strlit("1.9.1");
    reveal_strlit("1.9.2");
    reveal_strlit("1.9.4");
    if is_modern_protocol(protocol) {
        assert(modern_version_name(protocol)[0] == '1');
        assert(UNKNOWN@[0] == 'u');
    }
}

/// A legacy protocol number resolves to the sentinel exactly when the table
/// does not list it.
pub proof fn lemma_legacy_unknown_iff_unlisted(protocol: u8)
    ensures
        legacy_version_name(protocol) == UNKNOWN@ <==> !is_legacy_protocol(protocol),
{
    reveal_strlit("unknown");
    reveal_strlit("1.0.1");
    reveal_strlit("1.1");
    reveal_strlit("1.2.3");
    reveal_strlit("1.2.5");
    reveal_strlit("1.3.2");
    reveal_strlit("1.4.2");
    reveal_strlit("1.4.5");
    reveal_strlit("1.4.7");
    reveal_strlit("1.5.1");
    reveal_strlit("1.5.2");
    reveal_strlit("1.6.1");
    reveal_strlit("1.6.2");
    reveal_strlit("1.6.4");
    reveal_strlit("b1.1");
    reveal_strlit("b1.2");
    reveal_strlit("b1.3");
    reveal_strlit("b1.4");
    reveal_strlit("b1.5");
    reveal_strlit("b1.6.6");
    reveal_strlit("b1.7.3");
    reveal_strlit("b1.8.1");
    reveal_strlit("b1.9-pre1");
    reveal_strlit("b1.9-pre3");
    reveal_strlit("b1.9-pre4");
    reveal_strlit("b1.9-pre5");
    if is_legacy_protocol(protocol) {
        let first = legacy_version_name(protocol)[0];
        assert(first == '1' || first == 'b');
        assert(UNKNOWN@[0] == 'u');
    }
}

/// The protocol that the server advertises has a release name of its own.
pub proof fn lemma_server_protocol_is_listed()
    ensures
        is_modern_protocol(SERVER_PROTOCOL),
        modern_version_name(SERVER_PROTOCOL) == "1.21.5"@,
{
}

} // verus!
