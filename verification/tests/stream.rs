use pgn_reader::{
    Nag, Outcome, PgnReader, Progress, RawComment, RawHeader, Skip, SliceReader, Visitor,
    MIN_BUFFER_SIZE,
};

#[derive(Debug, PartialEq, Eq, Clone)]
enum Call {
    BeginGame,
    BeginHeaders,
    Header(Vec<u8>, Vec<u8>),
    EndHeaders,
    San(Vec<u8>),
    Nag(u8),
    Comment(Vec<u8>),
    BeginVariation,
    EndVariation,
    Outcome(Option<Outcome>),
    EndGame,
}

struct Recorder {
    calls: Vec<Call>,
    skip_movetext: bool,
    skip_variations: bool,
}

impl Visitor for Recorder {
    type Result = Vec<Call>;

    fn begin_game(&mut self) {
        self.calls.push(Call::BeginGame);
    }

    fn begin_headers(&mut self) {
        self.calls.push(Call::BeginHeaders);
    }

    fn header(&mut self, key: &[u8], value: RawHeader<'_>) {
        self.calls.push(Call::Header(key.to_vec(), value.as_bytes().to_vec()));
    }

    fn end_headers(&mut self) -> Skip {
        self.calls.push(Call::EndHeaders);
        Skip(self.skip_movetext)
    }

    fn san(&mut self, san: &[u8]) {
        self.calls.push(Call::San(san.to_vec()));
    }

    fn nag(&mut self, nag: Nag) {
        self.calls.push(Call::Nag(nag.0));
    }

    fn comment(&mut self, comment: RawComment<'_>) {
        self.calls.push(Call::Comment(comment.as_bytes().to_vec()));
    }

    fn begin_variation(&mut self) -> Skip {
        self.calls.push(Call::BeginVariation);
        Skip(self.skip_variations)
    }

    fn end_variation(&mut self) {
        self.calls.push(Call::EndVariation);
    }

    fn outcome(&mut self, outcome: Option<Outcome>) {
        self.calls.push(Call::Outcome(outcome));
    }

    fn end_game(&mut self) -> Vec<Call> {
        self.calls.push(Call::EndGame);
        std::mem::take(&mut self.calls)
    }
}

fn recorder(skip_movetext: bool, skip_variations: bool) -> Recorder {
    Recorder { calls: Vec::new(), skip_movetext, skip_variations }
}

fn read_slice(pgn: &[u8], skip_movetext: bool, skip_variations: bool) -> Vec<Vec<Call>> {
    let mut reader = SliceReader::new(pgn);
    let mut visitor = recorder(skip_movetext, skip_variations);
    let mut games = Vec::new();
    while let Some(game) = reader.read_game(&mut visitor) {
        games.push(game);
    }
    games
}

fn feed(reader: &mut PgnReader<()>, pgn: &[u8], fed: &mut usize, chunk: usize) {
    loop {
        let end = std::cmp::min(*fed + chunk, pgn.len());
        let again = reader.fill_buffer(&pgn[*fed..end]);
        *fed = end;
        if !again {
            break;
        }
    }
}

fn read_stream(
    pgn: &[u8],
    chunk: usize,
    skip_movetext: bool,
    skip_variations: bool,
) -> Vec<Vec<Call>> {
    let mut reader = PgnReader::new(());
    let mut visitor = recorder(skip_movetext, skip_variations);
    let mut games = Vec::new();
    let mut fed = 0;
    let mut turns = 0;
    loop {
        turns += 1;
        assert!(turns <= 4 * pgn.len() + 16);
        match reader.read_game(&mut visitor) {
            Progress::Game(game) => games.push(game),
            Progress::Finished => break,
            Progress::Starved => {
                assert!(visitor.calls.is_empty());
                feed(&mut reader, pgn, &mut fed, chunk);
            }
        }
    }
    assert_eq!(fed, pgn.len());
    assert!(reader.buffer().is_empty());
    games
}

fn sample(games: usize) -> Vec<u8> {
    let mut pgn = Vec::new();
    pgn.extend_from_slice(b"\xef\xbb\xbf");
    for k in 0..games {
        pgn.extend_from_slice(format!("[Event \"Game {}\"]\n", k).as_bytes());
        pgn.extend_from_slice(b"[White \"a \\\"quoted\\\" name\"]\n% hidden\n[Broken \"no end\n");
        if k % 3 == 0 {
            pgn.extend_from_slice(b"\r\n");
        } else {
            pgn.extend_from_slice(b"\n");
        }
        for m in 0..(k % 40) {
            let pair = format!("{}. e4 $1 {{ [%clk 0:01:00] }} e5?! ", m + 1);
            pgn.extend_from_slice(pair.as_bytes());
            if m % 5 == 0 {
                pgn.extend_from_slice(b"(1. d4 (1. c4 {x)}) d5) ; rest of line\n");
            }
        }
        pgn.extend_from_slice(if k % 2 == 0 { b"1-0\n\n" } else { b"1/2-1/2\n\n" });
    }
    pgn
}

#[test]
fn stream_and_slice_report_the_same() {
    let pgn = sample(60);
    assert!(pgn.len() > 3 * MIN_BUFFER_SIZE);
    let expected = read_slice(&pgn, false, false);
    assert_eq!(expected.len(), 60);
    for chunk in [1usize, 7, 100, 4096, 8192, 10000, 1 << 20] {
        assert_eq!(read_stream(&pgn, chunk, false, false), expected);
    }
}

#[test]
fn stream_and_slice_skip_the_same() {
    let pgn = sample(45);
    for chunk in [3usize, 1000, 8192] {
        assert_eq!(read_stream(&pgn, chunk, true, false), read_slice(&pgn, true, false));
        assert_eq!(read_stream(&pgn, chunk, false, true), read_slice(&pgn, false, true));
    }
}

#[test]
fn stream_reads_a_game_longer_than_the_buffer() {
    let mut pgn = b"[Event \"Long\"]\n\ne4 {".to_vec();
    pgn.extend(std::iter::repeat(b'x').take(5 * MIN_BUFFER_SIZE));
    pgn.extend_from_slice(b"} e5 *\n\n[Event \"Next\"]\n\nd4");
    let expected = read_slice(&pgn, false, false);
    assert_eq!(expected.len(), 2);
    assert_eq!(expected[0][5], Call::Comment(vec![b'x'; 5 * MIN_BUFFER_SIZE]));
    for chunk in [512usize, 8192, 1 << 16] {
        assert_eq!(read_stream(&pgn, chunk, false, false), expected);
    }
}

#[test]
fn stream_waits_for_the_end_of_a_game() {
    let mut reader = PgnReader::new(());
    let mut visitor = recorder(false, false);
    assert!(matches!(reader.read_game(&mut visitor), Progress::Starved));
    assert!(reader.fill_buffer(b"[Event \"x\"]\n\ne4 e5"));
    assert!(matches!(reader.read_game(&mut visitor), Progress::Starved));
    assert!(visitor.calls.is_empty());
    assert_eq!(reader.buffer(), b"[Event \"x\"]\n\ne4 e5");
    assert!(!reader.fill_buffer(b""));
    match reader.read_game(&mut visitor) {
        Progress::Game(game) => assert_eq!(game.len(), 7),
        _ => panic!("a game was there"),
    }
    assert!(matches!(reader.read_game(&mut visitor), Progress::Finished));
}

#[test]
fn stream_without_bytes_holds_no_game() {
    let mut reader = PgnReader::new(());
    let mut visitor = recorder(false, false);
    assert!(!reader.fill_buffer(b""));
    assert!(matches!(reader.read_game(&mut visitor), Progress::Finished));
    let mut reader = PgnReader::new(());
    assert!(reader.fill_buffer(b" \n\t "));
    assert!(!reader.fill_buffer(b""));
    assert!(matches!(reader.read_game(&mut visitor), Progress::Finished));
    assert!(visitor.calls.is_empty());
}

#[test]
fn stream_keeps_its_source() {
    let mut reader = PgnReader::new(vec![1u8, 2, 3]);
    reader.get_mut().push(4);
    assert!(reader.fill_buffer(b"e4"));
    assert_eq!(reader.into_inner(), vec![1u8, 2, 3, 4]);
}

#[test]
fn stream_consumes_from_the_front() {
    let mut reader = PgnReader::new(());
    assert!(reader.fill_buffer(b"abcdef"));
    reader.consume(0);
    assert_eq!(reader.buffer(), b"abcdef");
    reader.consume(2);
    assert_eq!(reader.buffer(), b"cdef");
    assert!(reader.fill_buffer(b"gh"));
    assert_eq!(reader.buffer(), b"cdefgh");
    reader.consume(6);
    assert_eq!(reader.buffer(), b"");
}

#[test]
fn stream_skips_games() {
    let pgn = sample(30);
    let mut reader = PgnReader::new(());
    let mut fed = 0;
    let mut games = 0;
    loop {
        match reader.skip_game() {
            Progress::Game(()) => games += 1,
            Progress::Finished => break,
            Progress::Starved => feed(&mut reader, &pgn, &mut fed, 5000),
        }
    }
    assert_eq!(games, 30);
    let mut slice = SliceReader::new(&pgn);
    let mut skipped = 0;
    while slice.skip_game() {
        skipped += 1;
    }
    assert_eq!(skipped, 30);
}

#[test]
fn stream_asks_for_twice_as_much_when_a_game_does_not_end() {
    let mut reader = PgnReader::new(());
    let mut visitor = recorder(false, false);
    let piece = vec![b'x'; MIN_BUFFER_SIZE];
    assert!(!reader.fill_buffer(&piece));
    assert!(matches!(reader.read_game(&mut visitor), Progress::Starved));
    assert!(reader.fill_buffer(&piece[..MIN_BUFFER_SIZE - 1]));
    assert!(matches!(reader.read_game(&mut visitor), Progress::Starved));
    assert!(!reader.fill_buffer(b"\n\ne4"));
    match reader.read_game(&mut visitor) {
        Progress::Game(game) => assert_eq!(game.len(), 5),
        _ => panic!("a game was there"),
    }
    assert_eq!(reader.buffer(), b"e4");
    assert!(reader.fill_buffer(b" e5"));
}

struct Random(u64);

impl Random {
    fn next(&mut self) -> u64 {
        self.0 ^= self.0 << 13;
        self.0 ^= self.0 >> 7;
        self.0 ^= self.0 << 17;
        self.0
    }

    fn soup(&mut self, len: usize) -> Vec<u8> {
        let alphabet: &[u8] = b"[]\"\\\n\n\n\r   %{};()e4Nf1-0/2*$!?.\xef\xbb\xbf";
        (0..len).map(|_| alphabet[(self.next() % alphabet.len() as u64) as usize]).collect()
    }
}

#[test]
fn stream_and_slice_report_the_same_of_any_bytes() {
    let mut random = Random(0x2545f4914f6cdd1d);
    for round in 0..12 {
        let pgn = random.soup(3 * MIN_BUFFER_SIZE + 1000 * round);
        let expected = read_slice(&pgn, false, round % 2 == 0);
        assert!(expected.len() > 100);
        for chunk in [997usize, 8192, 100000] {
            assert_eq!(read_stream(&pgn, chunk, false, round % 2 == 0), expected);
        }
    }
}

#[test]
fn stream_and_slice_skip_the_same_of_any_bytes() {
    let mut random = Random(0x9e3779b97f4a7c15);
    for _ in 0..12 {
        let pgn = random.soup(3 * MIN_BUFFER_SIZE);
        let mut slice = SliceReader::new(&pgn);
        let mut ends = Vec::new();
        while slice.skip_game() {
            ends.push(pgn.len() - slice.remaining());
        }
        let mut reader = PgnReader::new(());
        let mut fed = 0;
        let mut seen = Vec::new();
        loop {
            match reader.skip_game() {
                Progress::Game(()) => seen.push(fed - reader.buffer().len()),
                Progress::Finished => break,
                Progress::Starved => feed(&mut reader, &pgn, &mut fed, 4096),
            }
        }
        assert_eq!(seen, ends);
    }
}
