//! Errors in words.
use vetro::platform::bus::BusError;
use vetro::platform::fdt::{FdtBuilder, FdtError};
use vetro::platform::virtio::queue::QueueError;
use vetro::platform::virtio::ram::RamError;

#[test]
fn bus_errors() {
    assert_eq!(
        BusError::InvalidRange { base: 0x0900_0000, size: 0 }.to_string(),
        "intervallo non valido: base 0x9000000, dimensione 0x0"
    );
    assert_eq!(
        BusError::Overlap { base: 0x10, size: 0x20, existing: "pl011" }.to_string(),
        "la regione 0x10+0x20 si sovrappone a pl011"
    );
}

#[test]
fn queue_errors() {
    let ram = RamError { addr: 0x4000_0000, len: 16 };
    assert_eq!(ram.to_string(), "accesso fuori dalla RAM del guest: 0x40000000+0x10");
    assert_eq!(QueueError::from(ram).to_string(), ram.to_string());
    assert_eq!(QueueError::AvailIdx { last: 1, avail: 400 }.to_string(), "avail.idx salta da 1 a 400");
    assert_eq!(QueueError::HeadOutOfRange(9).to_string(), "testa 9 fuori dalla tabella");
    assert_eq!(QueueError::NextOutOfRange(9).to_string(), "next 9 fuori dalla tabella");
    assert_eq!(QueueError::ChainLoop.to_string(), "ciclo nella catena di descrittori");
    assert_eq!(
        QueueError::ReadableAfterWritable.to_string(),
        "buffer leggibile dopo uno scrivibile"
    );
}

#[test]
fn fdt_errors() {
    // A name is quoted as a string literal is: quotes and control characters are escaped.
    assert_eq!(
        FdtError::InvalidName("a\"b\n".to_string()).to_string(),
        "nome non valido: \"a\\\"b\\n\""
    );
    assert_eq!(
        FdtError::PropertyOutsideNode("reg".to_string()).to_string(),
        "propriet\u{e0} \"reg\" fuori da un nodo"
    );
    assert_eq!(FdtError::UnmatchedEnd.to_string(), "end_node senza begin_node");
    assert_eq!(FdtError::UnclosedNodes(2).to_string(), "2 nodi ancora aperti");
    assert_eq!(FdtError::Empty.to_string(), "device tree senza radice");
    assert_eq!(FdtError::MultipleRoots.to_string(), "pi\u{f9} di un nodo radice");
    let mut f = FdtBuilder::new();
    f.begin_node("bad name");
    f.end_node();
    assert_eq!(f.finish().unwrap_err().to_string(), "nome non valido: \"bad name\"");
}
