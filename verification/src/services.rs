use vstd::prelude::*;

verus! {

/// The service name that is commonly found listening on `port`, if any.
pub open spec fn spec_service_name(port: u16) -> Option<Seq<char>> {
    match port {
        20 => Some("FTP Data"@),
        21 => Some("FTP"@),
        22 => Some("SSH"@),
        23 => Some("Telnet"@),
        25 => Some("SMTP"@),
        53 => Some("DNS"@),
        80 => Some("HTTP"@),
        110 => Some("POP3"@),
        123 => Some("NTP"@),
        143 => Some("IMAP"@),
        443 => Some("HTTPS"@),
        465 => Some("SMTPS"@),
        587 => Some("SMTP Submission"@),
        993 => Some("IMAPS"@),
        995 => Some("POP3S"@),
        1433 => Some("MSSQL"@),
        1521 => Some("Oracle DB"@),
        2375 => Some("Docker"@),
        3000 => Some("Dev Server"@),
        3306 => Some("MySQL"@),
        5000 => Some("Dev Server"@),
        5432 => Some("PostgreSQL"@),
        5672 => Some("RabbitMQ"@),
        6379 => Some("Redis"@),
        8000 => Some("Dev Server"@),
        8080 => Some("HTTP Proxy / Dev"@),
        8081 => Some("Dev Server"@),
        8443 => Some("HTTPS Alt"@),
        9000 => Some("Dev Server"@),
        9092 => Some("Kafka"@),
        9200 => Some("Elasticsearch"@),
        11211 => Some("Memcached"@),
        25565 => Some("Minecraft Java"@),
        27017 => Some("MongoDB"@),
        _ => None,
    }
}

/// The hint shown for `port`: nothing when hints are disabled, otherwise
/// the common service name of the port.
pub open spec fn spec_service_hint(port: u16, no_hints: bool) -> Option<Seq<char>> {
    if no_hints {
        None
    } else {
        spec_service_name(port)
    }
}

/// Views an optional static string as an optional sequence of characters.
pub open spec fn opt_str_view(s: Option<&'static str>) -> Option<Seq<char>> {
    match s {
        Some(t) => Some(t@),
        None => None,
    }
}

/// Looks up the common service name of `port`, unless `no_hints` is set.
pub fn get_service_hint(port: u16, no_hints: bool) -> (hint: Option<&'static str>)
    ensures
        opt_str_view(hint) == spec_service_hint(port, no_hints),
{
    if no_hints {
        return None;
    }
    match port {
        20 => Some("FTP Data"),
        21 => Some("FTP"),
        22 => Some("SSH"),
        23 => Some("Telnet"),
        25 => Some("SMTP"),
        53 => Some("DNS"),
        80 => Some("HTTP"),
        110 => Some("POP3"),
        123 => Some("NTP"),
        143 => Some("IMAP"),
        443 => Some("HTTPS"),
        465 => Some("SMTPS"),
        587 => Some("SMTP Submission"),
        993 => Some("IMAPS"),
        995 => Some("POP3S"),
        1433 => Some("MSSQL"),
        1521 => Some("Oracle DB"),
        2375 => Some("Docker"),
        3000 => Some("Dev Server"),
        3306 => Some("MySQL"),
        5000 => Some("Dev Server"),
        5432 => Some("PostgreSQL"),
        5672 => Some("RabbitMQ"),
        6379 => Some("Redis"),
        8000 => Some("Dev Server"),
        8080 => Some("HTTP Proxy / Dev"),
        8081 => Some("Dev Server"),
        8443 => Some("HTTPS Alt"),
        9000 => Some("Dev Server"),
        9092 => Some("Kafka"),
        9200 => Some("Elasticsearch"),
        11211 => Some("Memcached"),
        25565 => Some("Minecraft Java"),
        27017 => Some("MongoDB"),
        _ => None,
    }
}

} // verus!
