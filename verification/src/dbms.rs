//! Database connection-string construction.

use vstd::prelude::*;
use vstd::string::{StringExecFns, StrSliceExecFns};

use crate::config::{Config, Secrets};

verus! {

/// The decimal digit character for a value below ten.
pub open spec fn digit_char(d: nat) -> char {
    if d == 0 {
        '0'
    } else if d == 1 {
        '1'
    } else if d == 2 {
        '2'
    } else if d == 3 {
        '3'
    } else if d == 4 {
        '4'
    } else if d == 5 {
        '5'
    } else if d == 6 {
        '6'
    } else if d == 7 {
        '7'
    } else if d == 8 {
        '8'
    } else {
        '9'
    }
}

/// The decimal rendering of a number, most significant digit first, without
/// leading zeros.
pub open spec fn spec_dec(n: nat) -> Seq<char>
    decreases n,
{
    if n < 10 {
        seq![digit_char(n)]
    } else {
        spec_dec(n / 10).push(digit_char(n % 10))
    }
}

/// The decimal digit string for a value below ten.
fn digit_str(d: u8) -> (r: &'static str)
    requires
        d < 10,
    ensures
        r@ == seq![digit_char(d as nat)],
{
    proof {
        reveal_strlit("0");
        reveal_strlit("1");
        reveal_strlit("2");
        reveal_strlit("3");
        reveal_strlit("4");
        reveal_strlit("5");
        reveal_strlit("6");
        reveal_strlit("7");
        reveal_strlit("8");
        reveal_strlit("9");
    }
    let r = match d {
        0 => "0",
        1 => "1",
        2 => "2",
        3 => "3",
        4 => "4",
        5 => "5",
        6 => "6",
        7 => "7",
        8 => "8",
        _ => "9",
    };
    proof {
        assert(r@ =~= seq![digit_char(d as nat)]);
    }
    r
}

/// Renders a port number in decimal.
pub fn u16_to_dec(n: u16) -> (s: String)
    ensures
        s@ == spec_dec(n as nat),
    decreases n,
{
    if n < 10 {
        digit_str(n as u8).to_owned()
    } else {
        let mut s = u16_to_dec(n / 10);
        s.append(digit_str((n % 10) as u8));
        proof {
            assert(s@ =~= spec_dec(n as nat));
        }
        s
    }
}

/// Builds the database connection string from the configuration.  For
/// sqlite the database file is opened in create-if-missing mode and no
/// credentials are involved; every other engine takes credentials, address,
/// port and database name.  The original treats missing database secrets as
/// fatal, so that input is excluded here.
pub fn get_url(conf: &Config, secrets: &Secrets) -> (url: String)
    requires
        conf.db.dbms@ == "sqlite"@ || secrets.db is Some,
    ensures
        conf.db.dbms@ == "sqlite"@ ==> url@ == conf.db.dbms@ + "://"@ + conf.db.database@
            + "?mode=rwc"@,
        conf.db.dbms@ != "sqlite"@ ==> url@ == conf.db.dbms@ + "://"@ + conf.db.username@ + ":"@
            + secrets.db->0.password@ + "@"@ + conf.db.address@ + ":"@ + spec_dec(
            conf.db.port as nat,
        ) + "/"@ + conf.db.database@,
{
    let mut url = conf.db.dbms.clone();
    url.append("://");
    let sqlite = String::from_str("sqlite");
    if !(conf.db.dbms == sqlite) {
        let db = match &secrets.db {
            Some(db) => db,
            None => vstd::pervasive::unreached(),
        };
        url.append(conf.db.username.as_str());
        url.append(":");
        url.append(db.password.as_str());
        url.append("@");
        url.append(conf.db.address.as_str());
        url.append(":");
        let port = u16_to_dec(conf.db.port);
        url.append(port.as_str());
        url.append("/");
        url.append(conf.db.database.as_str());
        proof {
            assert(url@ =~= conf.db.dbms@ + "://"@ + conf.db.username@ + ":"@
                + secrets.db->0.password@ + "@"@ + conf.db.address@ + ":"@ + spec_dec(
                conf.db.port as nat,
            ) + "/"@ + conf.db.database@);
        }
    } else {
        url.append(conf.db.database.as_str());
        url.append("?mode=rwc");
        proof {
            assert(url@ =~= conf.db.dbms@ + "://"@ + conf.db.database@ + "?mode=rwc"@);
        }
    }
    url
}

} // verus!
