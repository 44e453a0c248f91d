use vstd::prelude::*;

verus! {

/// The desktop frontend: one self-contained page that the desktop shell
/// loads into its webview. It talks to the backend only through the shell's
/// `invoke()` bridge (`get_home`, `get_chapters`, `get_reading`,
/// `get_xref_text`), renders the book list, the chapter grid and the reading
/// pane with its faded neighboring chapters, and handles arrow-key
/// navigation, translation switching, cross-reference expansion and the
/// random-chapter pick.
pub const INDEX_HTML: &'static str = r##"<!DOCTYPE html>
<html lang="en">
<head>
<meta charset="utf-8">
<meta name="viewport" content="width=device-width, initial-scale=1">
<title>Gospel Getter</title>
<style>
  :root { --bg: #1a1033; --fg: #f4e9ff; --accent: #ff71ce; --muted: #b967ff; }
  body { margin: 0; background: var(--bg); color: var(--fg); font-family: Georgia, serif; }
  header { padding: 1rem 2rem; border-bottom: 1px solid var(--muted); }
  .settings-toggle { position: absolute; top: 1rem; right: 1rem; }
  .settings-menu { position: absolute; top: 3rem; right: 1rem; background: var(--bg); border: 1px solid var(--muted); padding: 0.5rem; }
  .settings-menu[hidden] { display: none; }
  main { display: flex; gap: 1rem; padding: 1rem 2rem; }
  .book-list { width: 14rem; flex-shrink: 0; }
  .book-item { display: block; width: 100%; text-align: left; background: none; color: var(--fg); border: none; cursor: pointer; padding: 0.15rem 0.3rem; }
  .book-item.active { color: var(--accent); }
  #chapter-list { display: flex; flex-wrap: wrap; gap: 0.25rem; margin-bottom: 1rem; }
  .chapter-item { min-width: 2.2rem; cursor: pointer; }
  .chapter-item.active { background: var(--accent); }
  #reading-pane { display: flex; gap: 2rem; flex: 1; }
  .chapter-main { flex: 2; }
  .chapter-side { flex: 1; opacity: 0.4; }
  .chapter-side h2 { cursor: pointer; }
  .verse { margin: 0.3rem 0; line-height: 1.5; }
  .verse-number { color: var(--muted); font-size: 0.8em; margin-right: 0.3rem; }
  .xref { color: var(--accent); cursor: pointer; font-size: 0.8em; margin-left: 0.4rem; }
  .xref-popup { position: fixed; bottom: 1rem; right: 1rem; max-width: 30rem; background: var(--bg); border: 1px solid var(--accent); padding: 1rem; }
  .xref-popup[hidden] { display: none; }
  .nav-hint { color: var(--muted); font-size: 0.9em; }
  footer { padding: 1rem 2rem; color: var(--muted); font-size: 0.8em; }
  @media (max-width: 800px) {
    main { flex-direction: column; }
    .book-list { width: auto; }
    .chapter-side { display: none; }
  }
  @media print {
    .settings-toggle, .settings-menu, header, .book-list, #chapter-list,
    .chapter-side, .nav-hint, footer, .xref-popup { display: none !important; }
    body { background: white; color: black; }
  }
</style>
</head>
<body>
<header>
  <h1>Gospel Getter</h1>
  <button type="button" class="settings-toggle" id="settings-toggle" aria-expanded="false">Settings</button>
  <div class="settings-menu" id="settings-menu" hidden>
    <label for="translation-select">Translation</label>
    <select id="translation-select"></select>
  </div>
</header>
<main>
  <nav class="book-list">
    <button type="button" id="random-chapter-btn" class="random-chapter">Random chapter</button>
    <h2>Old Testament</h2>
    <div id="ot-books"></div>
    <h2>New Testament</h2>
    <div id="nt-books"></div>
  </nav>
  <section>
    <div id="chapter-list"></div>
    <p class="nav-hint">Use the &larr; and &rarr; keys to move one chapter at a time.</p>
    <div id="reading-pane"></div>
  </section>
</main>
<div class="xref-popup" id="xref-popup" hidden></div>
<footer>King James Version and World English Bible, both public domain.</footer>
<script>
  const invoke = window.__TAURI__.core.invoke;
  const state = { translationCode: null, bookId: 1, chapter: 1, prev: null, next: null };

  function escapeHtml(text) {
    return String(text)
      .replace(/&/g, '&amp;')
      .replace(/</g, '&lt;')
      .replace(/>/g, '&gt;')
      .replace(/"/g, '&quot;');
  }

  function renderBookButton(book, activeId) {
    const active = book.id === activeId ? ' active' : '';
    return `<button type="button" class="book-item${active}" data-book-id="${book.id}" data-chapter-count="${book.chapterCount}">${escapeHtml(book.name)}</button>`;
  }

  function renderVerse(verse) {
    const xrefs = (verse.xrefs || []).map((x) =>
      `<span class="xref" data-book-id="${x.bookId}" data-chapter="${x.chapter}" data-verse="${x.verse}" data-end-verse="${x.endVerse ?? ''}">${escapeHtml(x.citation)}</span>`
    ).join('');
    return `<p class="verse"><span class="verse-number">${verse.number}</span>${escapeHtml(verse.text)}${xrefs}</p>`;
  }

  function renderSide(side) {
    if (!side) {
      return '<div class="chapter-side"></div>';
    }
    return `<div class="chapter-side"><h2 data-book-id="${side.bookId}" data-chapter="${side.chapter}">${escapeHtml(side.bookName)} ${side.chapter}</h2>${side.verses.map(renderVerse).join('')}</div>`;
  }

  async function loadChapters(bookId, active) {
    const grid = await invoke('get_chapters', { bookId, active });
    const list = document.getElementById('chapter-list');
    if (!grid) {
      list.innerHTML = '';
      return;
    }
    list.innerHTML = grid.chapters.map((c) =>
      `<button type="button" class="chapter-item${c.isActive ? ' active' : ''}" data-chapter="${c.number}">${c.number}</button>`
    ).join('');
    list.dataset.bookId = String(grid.bookId);
  }

  async function loadReading(bookId, chapter) {
    const pane = await invoke('get_reading', { bookId, chapter, translationCode: state.translationCode });
    if (!pane) {
      return;
    }
    const crossedBook = pane.currentBookId !== state.bookId;
    state.bookId = pane.currentBookId;
    state.chapter = pane.currentChapter;
    state.prev = pane.prev ? { bookId: pane.prev.bookId, chapter: pane.prev.chapter } : null;
    state.next = pane.next ? { bookId: pane.next.bookId, chapter: pane.next.chapter } : null;
    document.getElementById('reading-pane').innerHTML =
      renderSide(pane.prev) +
      `<div class="chapter-main"><h2>${escapeHtml(pane.currentBookName)} ${pane.currentChapter}</h2>${pane.currentVerses.map(renderVerse).join('')}</div>` +
      renderSide(pane.next);
    document.querySelectorAll('.book-item').forEach((b) =>
      b.classList.toggle('active', Number(b.dataset.bookId) === state.bookId));
    if (crossedBook || document.getElementById('chapter-list').dataset.bookId !== String(state.bookId)) {
      await loadChapters(state.bookId, state.chapter);
    } else {
      document.querySelectorAll('.chapter-item').forEach((c) =>
        c.classList.toggle('active', Number(c.dataset.chapter) === state.chapter));
    }
  }

  async function showXref(el) {
    const endVerse = el.dataset.endVerse === '' ? null : Number(el.dataset.endVerse);
    const verses = await invoke('get_xref_text', {
      bookId: Number(el.dataset.bookId),
      chapter: Number(el.dataset.chapter),
      verse: Number(el.dataset.verse),
      endVerse,
      translationCode: state.translationCode,
    });
    const popup = document.getElementById('xref-popup');
    popup.innerHTML = `<strong>${escapeHtml(el.textContent)}</strong>` +
      verses.map((v) => `<p class="verse"><span class="verse-number">${v.number}</span>${escapeHtml(v.text)}</p>`).join('');
    popup.hidden = false;
  }

  function pickRandomChapter() {
    const books = Array.from(document.querySelectorAll('.book-item'));
    if (books.length === 0) {
      return;
    }
    const book = books[Math.floor(Math.random() * books.length)];
    const bookId = Number(book.dataset.bookId);
    const chapterCount = Number(book.dataset.chapterCount);
    if (!Number.isInteger(bookId) || !Number.isInteger(chapterCount) || chapterCount < 1) {
      return;
    }
    const chapter = Math.floor(Math.random() * chapterCount) + 1;
    loadReading(bookId, chapter);
  }

  async function init() {
    const home = await invoke('get_home');
    state.translationCode = home.currentTranslationCode || null;
    state.bookId = home.currentBookId;
    state.chapter = home.currentChapter;
    document.getElementById('ot-books').innerHTML = home.otBooks.map((b) => renderBookButton(b, home.currentBookId)).join('');
    document.getElementById('nt-books').innerHTML = home.ntBooks.map((b) => renderBookButton(b, home.currentBookId)).join('');
    const select = document.getElementById('translation-select');
    select.innerHTML = home.translations.map((t) =>
      `<option value="${escapeHtml(t.code)}"${t.code === home.currentTranslationCode ? ' selected' : ''}>${escapeHtml(t.name)}</option>`
    ).join('');
    await loadChapters(home.currentBookId, home.currentChapter);
    await loadReading(home.currentBookId, home.currentChapter);
  }

  document.addEventListener('click', (event) => {
    const target = event.target;
    if (target.closest('.book-item')) {
      const bookId = Number(target.closest('.book-item').dataset.bookId);
      loadChapters(bookId, 1);
      loadReading(bookId, 1);
    } else if (target.closest('.chapter-item')) {
      loadReading(state.bookId, Number(target.closest('.chapter-item').dataset.chapter));
    } else if (target.closest('.chapter-side h2')) {
      const heading = target.closest('.chapter-side h2');
      loadReading(Number(heading.dataset.bookId), Number(heading.dataset.chapter));
    } else if (target.closest('.xref')) {
      showXref(target.closest('.xref'));
    } else if (!target.closest('.xref-popup')) {
      document.getElementById('xref-popup').hidden = true;
    }
  });

  document.getElementById('random-chapter-btn').addEventListener('click', (event) => {
    event.stopPropagation();
    pickRandomChapter();
  });

  document.getElementById('settings-toggle').addEventListener('click', (event) => {
    event.stopPropagation();
    const menu = document.getElementById('settings-menu');
    menu.hidden = !menu.hidden;
    event.target.setAttribute('aria-expanded', String(!menu.hidden));
  });

  document.getElementById('translation-select').addEventListener('change', (event) => {
    state.translationCode = event.target.value;
    loadReading(state.bookId, state.chapter);
  });

  document.addEventListener('keydown', (event) => {
    if (event.target.closest && event.target.closest('select')) {
      return;
    }
    if (event.key === 'ArrowLeft' && state.prev) {
      loadReading(state.prev.bookId, state.prev.chapter);
    } else if (event.key === 'ArrowRight' && state.next) {
      loadReading(state.next.bookId, state.next.chapter);
    }
  });

  init();
</script>
</body>
</html>
"##;

} // verus!
