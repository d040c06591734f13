//! The fixed texts of the site's shell: the two profile links, the style
//! sheet, the script of the theme toggle, and the pieces of the page frame
//! that stand between them.

use vstd::prelude::*;

verus! {

pub const LINKEDIN_URL: &'static str = "https://www.linkedin.com/in/alexanderreyeswainwright";

pub const GITHUB_URL: &'static str = "https://github.com/alexander-rw";

/// The style sheet that every page carries.
pub const STYLES: &'static str = r#"
:root {
  --font-family: 'Plus Jakarta Sans', sans-serif;
  --bg: #F7F4EC;
  --text: #1C1B33;
  --accent: #7C3AED;
  --muted: #6B7280;
  --max-width: 720px;
}
[data-theme='dark'] {
  --bg: #0F0E1A;
  --text: #E4E2F0;
  --accent: #A78BFA;
}
*, *::before, *::after { box-sizing: border-box; }
html, body {
  background: var(--bg);
  color: var(--text);
  font-family: var(--font-family);
  margin: 0;
  padding: 0;
}
body > header, body > main, body > footer {
  max-width: var(--max-width);
  margin: 0 auto;
  padding: 0 1.5rem;
}
body > header {
  display: flex;
  align-items: center;
  justify-content: space-between;
  padding-top: 1.5rem;
  padding-bottom: 1.5rem;
  border-bottom: 1px solid color-mix(in srgb, var(--text) 15%, transparent);
}
nav a {
  color: var(--text);
  text-decoration: none;
  font-weight: 600;
  margin-right: 1.5rem;
}
nav a:hover { color: var(--accent); }
#theme-toggle {
  background: none;
  border: 1px solid color-mix(in srgb, var(--text) 30%, transparent);
  border-radius: 6px;
  color: var(--text);
  cursor: pointer;
  font-family: var(--font-family);
  font-size: 0.85rem;
  font-weight: 600;
  padding: 0.3rem 0.8rem;
}
#theme-toggle:hover { border-color: var(--accent); color: var(--accent); }
main { padding-top: 2.5rem; padding-bottom: 2.5rem; }
.page-title {
  font-size: 2rem;
  font-weight: 800;
  color: var(--text);
  margin-bottom: 0.25rem;
}
.read-time {
  color: var(--muted);
  font-size: 0.9rem;
  margin-top: 0;
  margin-bottom: 2rem;
}
.content h1, .content h2 { color: var(--accent); }
.content h1 { font-size: 1.6rem; font-weight: 700; }
.content h2 { font-size: 1.3rem; font-weight: 700; }
.content a { color: var(--accent); }
.content p { line-height: 1.75; }
.post-list { list-style: none; padding: 0; margin-top: 1.5rem; }
.post-list li {
  border-bottom: 1px solid color-mix(in srgb, var(--text) 10%, transparent);
  padding: 1rem 0;
}
.post-list li:first-child { padding-top: 0; }
.post-list a {
  color: var(--text);
  text-decoration: none;
  font-size: 1.1rem;
  font-weight: 700;
}
.post-list a:hover { color: var(--accent); }
.post-meta { font-size: 0.85rem; color: var(--muted); margin-top: 0.25rem; }
.post-desc { font-size: 0.9rem; color: var(--muted); margin-top: 0.25rem; }
footer {
  border-top: 1px solid color-mix(in srgb, var(--text) 15%, transparent);
  padding-top: 1rem;
  padding-bottom: 1.5rem;
  font-size: 0.85rem;
  color: var(--muted);
}
footer a { color: var(--muted); text-decoration: none; }
footer a:hover { color: var(--accent); }
"#;

/// The script of the light and dark theme toggle: it reads the stored choice,
/// falls back to the system's preference, and stores each new choice.
pub const THEME_SCRIPT: &'static str = r#"
(function () {
  var btn = document.getElementById('theme-toggle');
  var html = document.documentElement;
  function applyTheme(theme) {
    html.setAttribute('data-theme', theme);
    btn.textContent = theme === 'dark' ? 'Light' : 'Dark';
  }
  var stored = localStorage.getItem('theme');
  if (stored) {
    applyTheme(stored);
  } else if (window.matchMedia('(prefers-color-scheme: dark)').matches) {
    applyTheme('dark');
  }
  btn.addEventListener('click', function () {
    var next = html.getAttribute('data-theme') === 'dark' ? 'light' : 'dark';
    localStorage.setItem('theme', next);
    applyTheme(next);
  });
}());
"#;

/// The frame up to the page title.
pub const SHELL_OPEN: &'static str = r#"<!DOCTYPE html>
<html lang="en" data-theme="light">
<head>
  <meta charset="UTF-8" />
  <meta name="viewport" content="width=device-width, initial-scale=1.0" />
  <title>"#;

/// The frame between the page title and the style sheet.
pub const SHELL_AFTER_TITLE: &'static str = r#"</title>
  <link rel="preconnect" href="https://fonts.googleapis.com" />
  <link rel="preconnect" href="https://fonts.gstatic.com" crossorigin />
  <link href="https://fonts.googleapis.com/css2?family=Plus+Jakarta+Sans:wght@400;600;700;800&display=swap" rel="stylesheet" />
  <link rel="stylesheet" href="https://cdn.jsdelivr.net/npm/@picocss/pico@2/css/pico.classless.min.css" />
  <style>"#;

/// The frame between the style sheet and the content of the page.
pub const SHELL_AFTER_STYLES: &'static str = r#"</style>
</head>
<body>
  <header>
    <nav>
      <a href="/">About Me</a>
      <a href="/blog">Posts</a>
    </nav>
    <button id="theme-toggle" aria-label="Toggle theme">Dark</button>
  </header>
  <main>
    "#;

/// The frame between the content of the page and the first profile link.
pub const SHELL_AFTER_BODY: &'static str = r#"
  </main>
  <footer>
    <a href=""#;

/// The frame between the two profile links.
pub const SHELL_AFTER_LINKEDIN: &'static str = r#"" target="_blank" rel="noopener noreferrer">LinkedIn</a>
    &nbsp;&bull;&nbsp;
    <a href=""#;

/// The frame between the second profile link and the script.
pub const SHELL_AFTER_GITHUB: &'static str = r#"" target="_blank" rel="noopener noreferrer">GitHub</a>
  </footer>
  <script>"#;

/// The end of the frame.
pub const SHELL_CLOSE: &'static str = r#"</script>
</body>
</html>"#;

} // verus!
